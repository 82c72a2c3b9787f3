//! The derivation engine: rewrites a canonical compose document into the
//! derived document that fronts eligible services with proxy sidecars,
//! stamps run-identifying labels, and rewrites paths and dependencies.

use vstd::prelude::*;

use crate::yaml::{
    entries_equiv, find_key, is_str_key, lemma_equiv_map_get, lemma_find_key, lemma_find_key_congruent,
    lemma_find_key_push,
    lemma_map_get_find, lemma_map_put_effect, lemma_map_remove_effect, lemma_map_remove_other,
    lemma_map_update_other, lemma_map_update_self, lemma_yeq_refl, lemma_yeq_trans, map_find,
    map_get, map_get_ref,
    map_get_str, map_has, map_put, map_remove, yeq, Yaml,
};

verus! {

/// `k=v`, the line form of one label.
pub open spec fn label_line(k: Seq<char>, v: Seq<char>) -> Seq<char> {
    k + "="@ + v
}

pub open spec fn line_is(y: Yaml, t: Seq<char>) -> bool {
    match y {
        Yaml::Str(s) => s@ == t,
        _ => false,
    }
}

pub open spec fn line_starts_with(y: Yaml, p: Seq<char>) -> bool {
    match y {
        Yaml::Str(s) => s@.len() >= p.len() && s@.subrange(0, p.len() as int) == p,
        _ => false,
    }
}

/// Whether a service mapping carries the label `k=v` in its `labels` list.
pub open spec fn has_label_entries(m: Seq<(Yaml, Yaml)>, k: Seq<char>, v: Seq<char>) -> bool {
    match map_get(m, "labels"@) {
        Some(Yaml::Sequence(l)) => exists|i: int|
            0 <= i < l@.len() && line_is(#[trigger] l@[i], label_line(k, v)),
        _ => false,
    }
}

pub open spec fn svc_has_label(svc: Yaml, k: Seq<char>, v: Seq<char>) -> bool {
    match svc {
        Yaml::Mapping(m) => has_label_entries(m@, k, v),
        _ => false,
    }
}

/// Turns mapping-form labels into their `k=v` line form. Entries with
/// non-string keys are dropped, as the engine would refuse them anyway.
fn labels_from_mapping(m: &Vec<(Yaml, Yaml)>) -> (r: Vec<Yaml>)
    ensures
        forall|i: int| 0 <= i < r@.len() ==> (#[trigger] r@[i]) matches Yaml::Str(_),
        forall|j: int|
            0 <= j < m@.len() ==> match ((#[trigger] m@[j]).0, m@[j].1) {
                (Yaml::Str(k), Yaml::Str(v)) => exists|i: int|
                    0 <= i < r@.len() && line_is(#[trigger] r@[i], label_line(k@, v@)),
                _ => true,
            },
{
    let mut r: Vec<Yaml> = Vec::new();
    let mut j: usize = 0;
    while j < m.len()
        invariant
            j <= m@.len(),
            forall|i: int| 0 <= i < r@.len() ==> (#[trigger] r@[i]) matches Yaml::Str(_),
            forall|t: int|
                0 <= t < j ==> match ((#[trigger] m@[t]).0, m@[t].1) {
                    (Yaml::Str(k), Yaml::Str(v)) => exists|i: int|
                        0 <= i < r@.len() && line_is(#[trigger] r@[i], label_line(k@, v@)),
                    _ => true,
                },
        decreases m@.len() - j,
    {
        let ghost rprev = r@;
        match (&m[j].0, &m[j].1) {
            (Yaml::Str(k), value) => {
                let text = label_value_string(value);
                let mut line = k.clone();
                line.append("=");
                line.append(text.as_str());
                r.push(Yaml::Str(line));
                proof {
                    match m@[j as int].1 {
                        Yaml::Str(v) => {
                            assert(line_is(r@[r@.len() - 1], label_line(k@, v@)));
                        },
                        _ => {},
                    }
                    assert(forall|i: int| 0 <= i < rprev.len() ==> r@[i] == rprev[i]);
                }
            },
            _ => {},
        }
        j = j + 1;
        proof {
            assert(forall|i: int|
                0 <= i < rprev.len() ==> #[trigger] r@[i] == rprev[i]);
        }
    }
    r
}

/// The text a scalar label value contributes to its `k=v` line.
pub open spec fn spec_label_text(v: Yaml, t: Seq<char>) -> bool {
    match v {
        Yaml::Str(s) => t == s@,
        Yaml::Bool(b) => t == if b {
            "true"@
        } else {
            "false"@
        },
        Yaml::Null => t == "null"@,
        Yaml::Num(s) => t == s@,
        Yaml::Int(i) => (i >= 0 && crate::strings::all_digits(t) && crate::strings::dec_value(t)
            == i && t.len() >= 1 && (t.len() > 1 ==> t[0] != '0')) || (i < 0 && t.len() >= 2
            && t[0] == '-' && crate::strings::all_digits(t.drop_first())
            && crate::strings::dec_value(t.drop_first()) == -i && (t.len() > 2 ==> t[1] != '0')),
        _ => t == Seq::<char>::empty(),
    }
}

/// Renders a scalar label value as text.
pub fn label_value_string(v: &Yaml) -> (r: String)
    ensures
        spec_label_text(*v, r@),
{
    match v {
        Yaml::Str(s) => s.clone(),
        Yaml::Bool(b) => if *b {
            "true".to_owned()
        } else {
            "false".to_owned()
        },
        Yaml::Null => "null".to_owned(),
        Yaml::Num(s) => s.clone(),
        Yaml::Int(i) => {
            if *i >= 0 {
                crate::strings::u64_dec_string(*i as u64)
            } else {
                let mag: u64 = if *i == i64::MIN {
                    9223372036854775808u64
                } else {
                    (-*i) as u64
                };
                let mut out = String::new();
                out.append("-");
                let digits = crate::strings::u64_dec_string(mag);
                out.append(digits.as_str());
                proof {
                    reveal_strlit("-");
                    assert(out@.drop_first() =~= digits@);
                }
                out
            }
        },
        _ => String::new(),
    }
}

/// Extracts the label list from a service's former `labels` value,
/// normalizing the mapping form to `k=v` lines.
fn labels_list_of(existing: Option<Yaml>) -> (r: Vec<Yaml>)
    ensures
        match existing {
            Some(Yaml::Sequence(v)) => r@ == v@,
            _ => true,
        },
{
    match existing {
        Some(Yaml::Sequence(l)) => l,
        Some(Yaml::Mapping(lm)) => labels_from_mapping(&lm),
        _ => Vec::new(),
    }
}

/// Adds one label to a service mapping. Labels are normalized to the list
/// form; every label line already present in list form survives, the other
/// fields of the service are untouched, and the new line comes last.
pub fn add_label(svc: &mut Vec<(Yaml, Yaml)>, key: &str, value: &str)
    ensures
        has_label_entries(final(svc)@, key@, value@),
        forall|k2: Seq<char>, v2: Seq<char>|
            has_label_entries(old(svc)@, k2, v2) ==> has_label_entries(final(svc)@, k2, v2),
        forall|k2: Seq<char>|
            k2 != "labels"@ ==> map_get(final(svc)@, k2) == map_get(old(svc)@, k2),
        map_get(final(svc)@, "labels"@) matches Some(Yaml::Sequence(_)),
{
    let ghost m0 = svc@;
    let existing = map_remove(svc, "labels");
    let ghost m1 = svc@;
    let ghost ex = existing;
    let mut list: Vec<Yaml> = labels_list_of(existing);
    proof {
        lemma_find_key(m0, "labels"@);
        if find_key(m0, "labels"@) >= 0 {
            lemma_map_get_find(m0, "labels"@);
        }
    }
    let ghost l0 = list@;
    proof {
        assert(match map_get(m0, "labels"@) {
            Some(Yaml::Sequence(v)) => l0 == v@,
            _ => true,
        }) by {
            lemma_find_key(m0, "labels"@);
            lemma_map_get_find(m0, "labels"@);
            let idx = find_key(m0, "labels"@);
            assert(idx >= 0 ==> ex == Some(m0[idx].1));
            assert(idx < 0 ==> ex is None);
            match map_get(m0, "labels"@) {
                Some(Yaml::Sequence(v)) => {
                    assert(map_get(m0, "labels"@) == Some(m0[idx].1));
                    assert(m0[idx].1 == Yaml::Sequence(v));
                    assert(ex == Some(Yaml::Sequence(v)));
                },
                _ => {},
            }
        }
    }
    let mut line = key.to_owned();
    line.append("=");
    line.append(value);
    list.push(Yaml::Str(line));
    let ghost lfull = list@;
    let labels_value = Yaml::Sequence(list);
    let ghost vg = labels_value;
    map_put(svc, "labels", labels_value);
    proof {
        let mf = svc@;
        lemma_map_remove_effect(m0, m1, "labels"@);
        lemma_map_put_effect(m1, mf, "labels"@, vg);
        assert(map_get(mf, "labels"@) == Some(vg));
        assert(lfull.last() matches Yaml::Str(s) && s@ =~= label_line(key@, value@));
        assert(has_label_entries(mf, key@, value@)) by {
            match map_get(mf, "labels"@) {
                Some(Yaml::Sequence(l)) => {
                    assert(l@ == lfull);
                    assert(line_is(l@[l@.len() - 1], label_line(key@, value@)));
                },
                _ => {},
            }
        }
        lemma_find_key(m0, "labels"@);
        if find_key(m0, "labels"@) >= 0 {
            lemma_map_get_find(m0, "labels"@);
        }
        assert forall|k2: Seq<char>, v2: Seq<char>|
            has_label_entries(m0, k2, v2) implies has_label_entries(mf, k2, v2) by {
            match map_get(m0, "labels"@) {
                Some(Yaml::Sequence(lold)) => {
                    assert(l0 == lold@);
                    let i = choose|i: int|
                        0 <= i < lold@.len() && line_is(#[trigger] lold@[i], label_line(k2, v2));
                    assert(lfull[i] == lold@[i]);
                    match map_get(mf, "labels"@) {
                        Some(Yaml::Sequence(l)) => {
                            assert(l@ == lfull);
                            assert(line_is(l@[i], label_line(k2, v2)));
                        },
                        _ => {},
                    }
                },
                _ => {},
            }
        }
    }
}

/// The labels that tie every container of a run back to the run: its id,
/// the original service name, the two compose paths, and the project name.
/// The started-at label is stamped in a separate, final pass.
pub struct RunLabels {
    pub run_id: String,
    pub compose_file: String,
    pub derived_compose: String,
    pub project_name: String,
}

pub fn add_run_labels(svc: &mut Vec<(Yaml, Yaml)>, service_name: &str, labels: &RunLabels)
    ensures
        has_label_entries(final(svc)@, "sanelens.run.id"@, labels.run_id@),
        has_label_entries(final(svc)@, "sanelens.service"@, service_name@),
        has_label_entries(final(svc)@, "sanelens.compose.file"@, labels.compose_file@),
        has_label_entries(final(svc)@, "sanelens.compose.derived"@, labels.derived_compose@),
        has_label_entries(final(svc)@, "sanelens.project.name"@, labels.project_name@),
        forall|k2: Seq<char>, v2: Seq<char>|
            has_label_entries(old(svc)@, k2, v2) ==> has_label_entries(final(svc)@, k2, v2),
        forall|k2: Seq<char>|
            k2 != "labels"@ ==> map_get(final(svc)@, k2) == map_get(old(svc)@, k2),
        map_get(final(svc)@, "labels"@) matches Some(Yaml::Sequence(_)),
{
    add_label(svc, "sanelens.run.id", labels.run_id.as_str());
    add_label(svc, "sanelens.service", service_name);
    add_label(svc, "sanelens.compose.file", labels.compose_file.as_str());
    add_label(svc, "sanelens.compose.derived", labels.derived_compose.as_str());
    add_label(svc, "sanelens.project.name", labels.project_name.as_str());
}

/// The entry list carries the full run label set minted for one service.
pub open spec fn entries_run_labeled(
    m: Seq<(Yaml, Yaml)>,
    service: Seq<char>,
    labels: RunLabels,
) -> bool {
    &&& has_label_entries(m, "sanelens.run.id"@, labels.run_id@)
    &&& has_label_entries(m, "sanelens.service"@, service)
    &&& has_label_entries(m, "sanelens.compose.file"@, labels.compose_file@)
    &&& has_label_entries(m, "sanelens.compose.derived"@, labels.derived_compose@)
    &&& has_label_entries(m, "sanelens.project.name"@, labels.project_name@)
}

/// The service value carries the full run label set minted for it.
pub open spec fn svc_run_labeled(v: Yaml, service: Seq<char>, labels: RunLabels) -> bool {
    match v {
        Yaml::Mapping(m) => entries_run_labeled(m@, service, labels),
        _ => false,
    }
}

/// Every service value carries the labels that are uniform over a run: the
/// run id, the two compose paths and the project name.
pub open spec fn all_core_labeled(
    m: Seq<(Yaml, Yaml)>,
    run_id: Seq<char>,
    compose_file: Seq<char>,
    derived: Seq<char>,
    project: Seq<char>,
) -> bool {
    forall|i: int|
        0 <= i < m.len() ==> ((#[trigger] m[i]).1 matches Yaml::Mapping(_) ==> {
            &&& svc_has_label(m[i].1, "sanelens.run.id"@, run_id)
            &&& svc_has_label(m[i].1, "sanelens.compose.file"@, compose_file)
            &&& svc_has_label(m[i].1, "sanelens.compose.derived"@, derived)
            &&& svc_has_label(m[i].1, "sanelens.project.name"@, project)
        })
}

/// Whether an environment value (mapping or `K=V` list form) defines `k`.
pub open spec fn env_value_defines(v: Yaml, k: Seq<char>) -> bool {
    match v {
        Yaml::Mapping(e) => map_has(e@, k),
        Yaml::Sequence(l) => exists|i: int|
            0 <= i < l@.len() && line_starts_with(#[trigger] l@[i], k + "="@),
        _ => false,
    }
}

/// Every definition in the old environment value survives in the new one.
pub open spec fn env_preserved(old_v: Option<Yaml>, new_v: Yaml) -> bool {
    forall|k2: Seq<char>|
        (match old_v {
            Some(v) => env_value_defines(v, k2),
            None => false,
        }) ==> env_value_defines(new_v, k2)
}

/// Every prefix a label or environment line had, it keeps.
pub open spec fn line_pres(b: Yaml, a: Yaml) -> bool {
    forall|p: Seq<char>| line_starts_with(b, p) ==> line_starts_with(a, p)
}

/// Whether a service's `environment` block defines `k`.
pub open spec fn env_defines(m: Seq<(Yaml, Yaml)>, k: Seq<char>) -> bool {
    match map_get(m, "environment"@) {
        Some(v) => env_value_defines(v, k),
        None => false,
    }
}

/// Sets an environment variable if absent; an existing definition wins.
pub fn ensure_env_var(svc: &mut Vec<(Yaml, Yaml)>, key: &str, value: &str)
    ensures
        env_defines(final(svc)@, key@),
        forall|k2: Seq<char>|
            k2 != "environment"@ ==> map_get(final(svc)@, k2) == map_get(old(svc)@, k2),
        forall|k2: Seq<char>|
            env_defines(old(svc)@, k2) ==> env_defines(final(svc)@, k2),
{
    let ghost m0 = svc@;
    let existing = map_remove(svc, "environment");
    let ghost m1 = svc@;
    let ghost ex = existing;
    let env_value: Yaml = match existing {
        Some(Yaml::Mapping(mut e)) => {
            let ghost e_in = e@;
            if map_find(&e, key).is_none() {
                let ghost e0 = e@;
                map_put(&mut e, key, Yaml::Str(value.to_owned()));
                proof {
                    lemma_map_put_effect(e0, e@, key@, e@.last().1);
                }
            }
            let out = Yaml::Mapping(e);
            proof {
                assert(env_value_defines(out, key@));
                assert(env_preserved(ex, out)) by {
                    assert forall|k2: Seq<char>|
                        (match ex {
                            Some(v) => env_value_defines(v, k2),
                            None => false,
                        }) implies env_value_defines(out, k2) by {
                        if k2 != key@ {
                        }
                    }
                }
            }
            out
        },
        Some(Yaml::Sequence(mut l)) => {
            let prefix = {
                let mut p = key.to_owned();
                p.append("=");
                p
            };
            let mut found: bool = false;
            let mut i: usize = 0;
            while i < l.len()
                invariant
                    i <= l@.len(),
                    found ==> exists|j: int|
                        0 <= j < l@.len() && line_starts_with(#[trigger] l@[j], key@ + "="@),
                    prefix@ == key@ + "="@,
                decreases l@.len() - i,
            {
                match &l[i] {
                    Yaml::Str(s) => {
                        let sv = crate::strings::str_chars(s.as_str());
                        if crate::strings::chars_starts_with(&sv, prefix.as_str()) {
                            found = true;
                        }
                    },
                    _ => {},
                }
                i = i + 1;
            }
            let ghost l_in = l@;
            if !found {
                let mut line = key.to_owned();
                line.append("=");
                line.append(value);
                l.push(Yaml::Str(line));
                proof {
                    assert(line_starts_with(l@.last(), key@ + "="@)) by {
                        assert((key@ + "="@ + value@).subrange(
                            0,
                            (key@ + "="@).len() as int,
                        ) =~= key@ + "="@);
                    }
                    assert(forall|j: int| 0 <= j < l_in.len() ==> #[trigger] l@[j] == l_in[j]);
                }
            }
            proof {
                if !found {
                    assert(line_starts_with(l@[l@.len() - 1], key@ + "="@));
                    assert(exists|j: int|
                        0 <= j < l@.len() && line_starts_with(#[trigger] l@[j], key@ + "="@));
                }
            }
            let ghost lg = l@;
            let out = Yaml::Sequence(l);
            proof {
                assert(env_value_defines(out, key@)) by {
                    assert(out->Sequence_0@ == lg);
                    let j = choose|j: int|
                        0 <= j < lg.len() && line_starts_with(#[trigger] lg[j], key@ + "="@);
                    assert(line_starts_with(out->Sequence_0@[j], key@ + "="@));
                }
                assert(env_preserved(ex, out)) by {
                    assert forall|k2: Seq<char>|
                        (match ex {
                            Some(v) => env_value_defines(v, k2),
                            None => false,
                        }) implies env_value_defines(out, k2) by {
                        match ex {
                            Some(Yaml::Sequence(lv)) => {
                                let j = choose|j: int|
                                    0 <= j < lv@.len() && line_starts_with(
                                        #[trigger] lv@[j],
                                        k2 + "="@,
                                    );
                                assert(lg[j] == lv@[j]);
                                assert(line_starts_with(lg[j], k2 + "="@));
                            },
                            _ => {},
                        }
                    }
                }
            }
            out
        },
        _ => {
            let mut e: Vec<(Yaml, Yaml)> = Vec::new();
            e.push((Yaml::Str(key.to_owned()), Yaml::Str(value.to_owned())));
            let out = Yaml::Mapping(e);
            proof {
                assert(is_str_key(out->Mapping_0@[0], key@));
                assert(env_value_defines(out, key@));
                assert(env_preserved(ex, out)) by {
                    assert forall|k2: Seq<char>|
                        (match ex {
                            Some(v) => env_value_defines(v, k2),
                            None => false,
                        }) implies env_value_defines(out, k2) by {}
                }
            }
            out
        },
    };
    let ghost env_ghost = env_value;
    proof {
        assert(env_value_defines(env_ghost, key@));
        assert(env_preserved(ex, env_ghost));
    }
    map_put(svc, "environment", env_value);
    proof {
        lemma_map_remove_effect(m0, m1, "environment"@);
        lemma_map_put_effect(m1, svc@, "environment"@, env_ghost);
        lemma_find_key(m0, "environment"@);
        lemma_map_get_find(m0, "environment"@);
        assert forall|k2: Seq<char>| env_defines(m0, k2) implies env_defines(svc@, k2) by {
            let idx = find_key(m0, "environment"@);
            assert(idx >= 0);
            assert(ex == Some(m0[idx].1));
            assert(match ex {
                Some(v) => env_value_defines(v, k2),
                None => false,
            });
            assert(env_value_defines(env_ghost, k2));
        }
    }
}

/// Merges `value` onto an existing definition of `k` (comma-joined), or
/// defines it.
pub fn merge_env_var(svc: &mut Vec<(Yaml, Yaml)>, key: &str, value: &str)
    ensures
        env_defines(final(svc)@, key@),
        forall|k2: Seq<char>|
            k2 != "environment"@ ==> map_get(final(svc)@, k2) == map_get(old(svc)@, k2),
        forall|k2: Seq<char>|
            env_defines(old(svc)@, k2) ==> env_defines(final(svc)@, k2),
{
    let ghost m0 = svc@;
    let existing = map_remove(svc, "environment");
    let ghost m1 = svc@;
    let ghost ex = existing;
    let env_value: Yaml = match existing {
        Some(Yaml::Mapping(mut e)) => {
            let merged: Yaml = match map_get_str(&e, key) {
                Some(prev) => {
                    let mut s = prev;
                    s.append(",");
                    s.append(value);
                    Yaml::Str(s)
                },
                None => Yaml::Str(value.to_owned()),
            };
            let ghost e0 = e@;
            let ghost mg = merged;
            map_put(&mut e, key, merged);
            proof {
                lemma_map_put_effect(e0, e@, key@, mg);
            }
            let out = Yaml::Mapping(e);
            proof {
                assert(env_value_defines(out, key@));
                assert(env_preserved(ex, out)) by {
                    assert forall|k2: Seq<char>|
                        (match ex {
                            Some(v) => env_value_defines(v, k2),
                            None => false,
                        }) implies env_value_defines(out, k2) by {
                        if k2 != key@ {
                        }
                    }
                }
            }
            out
        },
        Some(Yaml::Sequence(l)) => {
            let prefix = {
                let mut p = key.to_owned();
                p.append("=");
                p
            };
            let mut out: Vec<Yaml> = Vec::new();
            let mut updated: bool = false;
            let mut i: usize = 0;
            while i < l.len()
                invariant
                    i <= l@.len(),
                    out@.len() == i,
                    forall|j: int| 0 <= j < i ==> line_pres(l@[j], #[trigger] out@[j]),
                    updated ==> exists|j: int|
                        0 <= j < out@.len() && line_starts_with(
                            #[trigger] out@[j],
                            key@ + "="@,
                        ),
                    prefix@ == key@ + "="@,
                decreases l@.len() - i,
            {
                let ghost outprev = out@;
                let entry = &l[i];
                let mut handled: bool = false;
                match entry {
                    Yaml::Str(s) => {
                        let sv = crate::strings::str_chars(s.as_str());
                        if !updated && crate::strings::chars_starts_with(&sv, prefix.as_str()) {
                            let mut merged = s.clone();
                            merged.append(",");
                            merged.append(value);
                            out.push(Yaml::Str(merged));
                            updated = true;
                            handled = true;
                            proof {
                                assert(line_starts_with(out@.last(), key@ + "="@)) by {
                                    assert((s@ + ","@ + value@).subrange(
                                        0,
                                        (key@ + "="@).len() as int,
                                    ) =~= s@.subrange(0, (key@ + "="@).len() as int));
                                }
                                assert(line_pres(l@[i as int], out@.last())) by {
                                    assert forall|p: Seq<char>|
                                        line_starts_with(l@[i as int], p) implies line_starts_with(
                                        out@.last(),
                                        p,
                                    ) by {
                                        assert((s@ + ","@ + value@).subrange(0, p.len() as int)
                                            =~= s@.subrange(0, p.len() as int));
                                    }
                                }
                            }
                        }
                    },
                    _ => {},
                }
                if !handled {
                    let d = entry.duplicate();
                    proof {
                        assert(line_pres(l@[i as int], d)) by {
                            assert(yeq(d, l@[i as int]));
                            assert forall|p: Seq<char>|
                                line_starts_with(l@[i as int], p) implies line_starts_with(
                                d,
                                p,
                            ) by {
                                match (l@[i as int], d) {
                                    (Yaml::Str(sa), Yaml::Str(sb)) => {
                                        assert(sb@ == sa@);
                                    },
                                    _ => {},
                                }
                            }
                        }
                    }
                    out.push(d);
                }
                i = i + 1;
                proof {
                    assert(forall|j: int|
                        0 <= j < outprev.len() ==> #[trigger] out@[j] == outprev[j]);
                    if updated && !handled {
                        let j = choose|j: int|
                            0 <= j < outprev.len() && line_starts_with(
                                #[trigger] outprev[j],
                                key@ + "="@,
                            );
                        assert(line_starts_with(out@[j], key@ + "="@));
                    }
                }
            }
            if !updated {
                let mut line = key.to_owned();
                line.append("=");
                line.append(value);
                out.push(Yaml::Str(line));
                proof {
                    assert(line_starts_with(out@.last(), key@ + "="@)) by {
                        assert((key@ + "="@ + value@).subrange(
                            0,
                            (key@ + "="@).len() as int,
                        ) =~= key@ + "="@);
                    }
                }
            }
            let ghost lg = out@;
            let ghost l_orig = l@;
            let outv = Yaml::Sequence(out);
            proof {
                assert(env_value_defines(outv, key@)) by {
                    assert(outv->Sequence_0@ == lg);
                    let j = choose|j: int|
                        0 <= j < lg.len() && line_starts_with(#[trigger] lg[j], key@ + "="@);
                    assert(line_starts_with(outv->Sequence_0@[j], key@ + "="@));
                }
                assert(env_preserved(ex, outv)) by {
                    assert forall|k2: Seq<char>|
                        (match ex {
                            Some(v) => env_value_defines(v, k2),
                            None => false,
                        }) implies env_value_defines(outv, k2) by {
                        match ex {
                            Some(Yaml::Sequence(lv)) => {
                                let j = choose|j: int|
                                    0 <= j < lv@.len() && line_starts_with(
                                        #[trigger] lv@[j],
                                        k2 + "="@,
                                    );
                                assert(line_pres(lv@[j], lg[j]));
                                assert(line_starts_with(lg[j], k2 + "="@));
                            },
                            _ => {},
                        }
                    }
                }
            }
            outv
        },
        _ => {
            let mut e: Vec<(Yaml, Yaml)> = Vec::new();
            e.push((Yaml::Str(key.to_owned()), Yaml::Str(value.to_owned())));
            let out = Yaml::Mapping(e);
            proof {
                assert(is_str_key(out->Mapping_0@[0], key@));
                assert(env_value_defines(out, key@));
                assert(env_preserved(ex, out)) by {
                    assert forall|k2: Seq<char>|
                        (match ex {
                            Some(v) => env_value_defines(v, k2),
                            None => false,
                        }) implies env_value_defines(out, k2) by {}
                }
            }
            out
        },
    };
    let ghost env_ghost = env_value;
    proof {
        assert(env_value_defines(env_ghost, key@));
        assert(env_preserved(ex, env_ghost));
    }
    map_put(svc, "environment", env_value);
    proof {
        lemma_map_remove_effect(m0, m1, "environment"@);
        lemma_map_put_effect(m1, svc@, "environment"@, env_ghost);
        lemma_find_key(m0, "environment"@);
        lemma_map_get_find(m0, "environment"@);
        assert forall|k2: Seq<char>| env_defines(m0, k2) implies env_defines(svc@, k2) by {
            let idx = find_key(m0, "environment"@);
            assert(idx >= 0);
            assert(ex == Some(m0[idx].1));
            assert(match ex {
                Some(v) => env_value_defines(v, k2),
                None => false,
            });
            assert(env_value_defines(env_ghost, k2));
        }
    }
}

/// `condition: service_healthy`, the only dependency condition the rewrite
/// must move to the app variant.
pub open spec fn spec_healthy_condition(v: Yaml) -> bool {
    match v {
        Yaml::Mapping(m) => match map_get(m@, "condition"@) {
            Some(Yaml::Str(s)) => s@ == "service_healthy"@,
            _ => false,
        },
        _ => false,
    }
}

pub fn is_service_healthy_condition(v: &Yaml) -> (r: bool)
    ensures
        r == spec_healthy_condition(*v),
{
    match v {
        Yaml::Mapping(m) => match map_get_str(m, "condition") {
            Some(s) => crate::strings::str_eq(s.as_str(), "service_healthy"),
            None => false,
        },
        _ => false,
    }
}

/// First binding of the original name `k` in the proxy-to-app alias list.
pub open spec fn alias_get(m: Seq<(String, String)>, k: Seq<char>) -> Option<Seq<char>>
    decreases m.len(),
{
    if m.len() == 0 {
        None
    } else if m[0].0@ == k {
        Some(m[0].1@)
    } else {
        alias_get(m.drop_first(), k)
    }
}

pub fn alias_lookup(m: &Vec<(String, String)>, k: &str) -> (r: Option<String>)
    ensures
        match r {
            Some(v) => alias_get(m@, k@) == Some(v@),
            None => alias_get(m@, k@) is None,
        },
{
    let mut i: usize = 0;
    proof {
        assert(m@.subrange(0, m@.len() as int) =~= m@);
    }
    while i < m.len()
        invariant
            i <= m@.len(),
            alias_get(m@, k@) == alias_get(m@.subrange(i as int, m@.len() as int), k@),
        decreases m@.len() - i,
    {
        proof {
            let cur = m@.subrange(i as int, m@.len() as int);
            assert(cur.drop_first() =~= m@.subrange(i + 1, m@.len() as int));
        }
        if crate::strings::str_eq(m[i].0.as_str(), k) {
            return Some(m[i].1.clone());
        }
        i = i + 1;
    }
    None
}

/// How one `depends_on` entry comes out of the rewrite: a healthy-condition
/// dependency on a proxied name is re-keyed to its `<name>-app` alias with
/// the condition value kept; every other entry is kept as it stands.
pub open spec fn depends_entry_rewritten(
    b: (Yaml, Yaml),
    a: (Yaml, Yaml),
    aliases: Seq<(String, String)>,
) -> bool {
    match b.0 {
        Yaml::Str(s) => {
            if spec_healthy_condition(b.1) && alias_get(aliases, s@) is Some {
                &&& (match a.0 {
                    Yaml::Str(n) => Some(n@) == alias_get(aliases, s@),
                    _ => false,
                })
                &&& yeq(a.1, b.1)
            } else {
                yeq(a.0, b.0) && yeq(a.1, b.1)
            }
        },
        _ => yeq(a.0, b.0) && yeq(a.1, b.1),
    }
}

/// Rewrites `depends_on` entries: a dependency on a proxied service with
/// `condition: service_healthy` must name the `<name>-app` variant, since the
/// proxy now owns the original name and has no health check. Afterwards no
/// healthy-condition dependency names a proxied service, the surviving
/// entries are the old ones rewritten pointwise, and every other key of the
/// service is untouched.
pub fn rewrite_depends_on_for_proxies(
    svc: &mut Vec<(Yaml, Yaml)>,
    proxy_app_map: &Vec<(String, String)>,
)
    requires
        forall|i: int|
            0 <= i < proxy_app_map@.len() ==> alias_get(
                proxy_app_map@,
                (#[trigger] proxy_app_map@[i]).1@,
            ) is None,
    ensures
        forall|k2: Seq<char>|
            k2 != "depends_on"@ ==> map_get(final(svc)@, k2) == map_get(old(svc)@, k2),
        match map_get(final(svc)@, "depends_on"@) {
            Some(Yaml::Mapping(d)) => forall|i: int|
                0 <= i < d@.len() ==> match (#[trigger] d@[i]).0 {
                    Yaml::Str(s) => alias_get(proxy_app_map@, s@) is Some ==> !spec_healthy_condition(
                        d@[i].1,
                    ),
                    _ => true,
                },
            _ => true,
        },
        match (map_get(old(svc)@, "depends_on"@), map_get(final(svc)@, "depends_on"@)) {
            (Some(Yaml::Mapping(b)), Some(Yaml::Mapping(a))) => a@.len() == b@.len() && forall|
                i: int,
            |
                0 <= i < b@.len() ==> depends_entry_rewritten(
                    #[trigger] b@[i],
                    a@[i],
                    proxy_app_map@,
                ),
            (Some(Yaml::Mapping(_)), _) => false,
            (Some(b), Some(a)) => a == b,
            (None, None) => true,
            _ => false,
        },
{
    let ghost m0 = svc@;
    let existing = map_remove(svc, "depends_on");
    let ghost m1 = svc@;
    match existing {
        Some(Yaml::Mapping(d)) => {
            let mut out: Vec<(Yaml, Yaml)> = Vec::new();
            let mut i: usize = 0;
            while i < d.len()
                invariant
                    i <= d@.len(),
                    out@.len() == i,
                    forall|j: int|
                        0 <= j < proxy_app_map@.len() ==> alias_get(
                            proxy_app_map@,
                            (#[trigger] proxy_app_map@[j]).1@,
                        ) is None,
                    forall|t: int|
                        0 <= t < out@.len() ==> match (#[trigger] out@[t]).0 {
                            Yaml::Str(s) => alias_get(proxy_app_map@, s@) is Some
                                ==> !spec_healthy_condition(out@[t].1),
                            _ => true,
                        },
                    forall|t: int|
                        0 <= t < i ==> depends_entry_rewritten(
                            #[trigger] d@[t],
                            out@[t],
                            proxy_app_map@,
                        ),
                decreases d@.len() - i,
            {
                let ghost outprev = out@;
                let healthy = is_service_healthy_condition(&d[i].1);
                let mut renamed: bool = false;
                match &d[i].0 {
                    Yaml::Str(s) => {
                        if healthy {
                            match alias_lookup(proxy_app_map, s.as_str()) {
                                Some(app) => {
                                    let v = d[i].1.duplicate();
                                    proof {
                                        lemma_healthy_equiv(d@[i as int].1, v);
                                    }
                                    out.push((Yaml::Str(app), v));
                                    renamed = true;
                                },
                                None => {},
                            }
                        }
                    },
                    _ => {},
                }
                if !renamed {
                    let k = d[i].0.duplicate();
                    let v = d[i].1.duplicate();
                    proof {
                        lemma_healthy_equiv(d@[i as int].1, v);
                        lemma_yeq_refl(d@[i as int].0);
                    }
                    out.push((k, v));
                }
                i = i + 1;
                proof {
                    assert(forall|t: int|
                        0 <= t < outprev.len() ==> #[trigger] out@[t] == outprev[t]);
                    match out@.last().0 {
                        Yaml::Str(s) => {
                            if alias_get(proxy_app_map@, s@) is Some {
                                if renamed {
                                    lemma_alias_in_range(proxy_app_map@, d@[i - 1].0->Str_0@);
                                }
                            }
                        },
                        _ => {},
                    }
                    assert(depends_entry_rewritten(d@[i - 1], out@[i - 1], proxy_app_map@));
                }
            }
            let ghost out_ghost = Yaml::Mapping(out);
            map_put(svc, "depends_on", Yaml::Mapping(out));
            proof {
                finish_depends_proof(m0, m1, svc@, out_ghost);
                lemma_find_key(m0, "depends_on"@);
                lemma_map_get_find(m0, "depends_on"@);
            }
        },
        Some(other) => {
            let ghost other_ghost = other;
            map_put(svc, "depends_on", other);
            proof {
                finish_depends_proof_other(m0, m1, svc@, other_ghost);
                lemma_find_key(m0, "depends_on"@);
                lemma_map_get_find(m0, "depends_on"@);
            }
        },
        None => {
            proof {
                lemma_find_key(m0, "depends_on"@);
                lemma_map_get_find(m0, "depends_on"@);
                assert forall|k2: Seq<char>| k2 != "depends_on"@ implies map_get(svc@, k2)
                    == map_get(m0, k2) by {
                }
                assert(map_get(svc@, "depends_on"@) is None) by {
                    lemma_map_get_find(svc@, "depends_on"@);
                    lemma_find_key(svc@, "depends_on"@);
                }
            }
        },
    }
}

/// Structural equivalence preserves the healthy-condition shape.
proof fn lemma_healthy_equiv(a: Yaml, b: Yaml)
    requires
        yeq(b, a),
    ensures
        spec_healthy_condition(a) == spec_healthy_condition(b),
{
    match (a, b) {
        (Yaml::Mapping(ma), Yaml::Mapping(mb)) => {
            assert(entries_equiv(mb@, ma@));
            lemma_equiv_map_get(mb@, ma@, "condition"@);
        },
        _ => {},
    }
}

/// An alias target is itself never aliased, so a renamed dependency cannot
/// be renamed again.
proof fn lemma_alias_in_range(m: Seq<(String, String)>, k: Seq<char>)
    requires
        alias_get(m, k) is Some,
        forall|i: int| 0 <= i < m.len() ==> alias_get(m, (#[trigger] m[i]).1@) is None,
    ensures
        alias_get(m, alias_get(m, k)->Some_0) is None,
{
    assert(m =~= m.subrange(0, m.len() as int));
    lemma_alias_get_is_entry(m, k, m, 0);
}

proof fn lemma_alias_get_is_entry(
    m: Seq<(String, String)>,
    k: Seq<char>,
    whole: Seq<(String, String)>,
    off: int,
)
    requires
        alias_get(m, k) is Some,
        forall|i: int| 0 <= i < whole.len() ==> alias_get(whole, (#[trigger] whole[i]).1@) is None,
        0 <= off <= whole.len(),
        m == whole.subrange(off, whole.len() as int),
    ensures
        alias_get(whole, alias_get(m, k)->Some_0) is None,
    decreases m.len(),
{
    if m[0].0@ == k {
        assert(whole[off] == m[0]);
    } else {
        assert(m.drop_first() =~= whole.subrange(off + 1, whole.len() as int)) by {
            assert(forall|j: int|
                0 <= j < m.drop_first().len() ==> #[trigger] m.drop_first()[j] == m[j + 1]);
        }
        lemma_alias_get_is_entry(m.drop_first(), k, whole, off + 1);
    }
}

proof fn finish_depends_proof(
    m0: Seq<(Yaml, Yaml)>,
    m1: Seq<(Yaml, Yaml)>,
    mf: Seq<(Yaml, Yaml)>,
    v: Yaml,
)
    requires
        find_key(m0, "depends_on"@) >= 0 ==> m1 == m0.remove(find_key(m0, "depends_on"@)),
        find_key(m0, "depends_on"@) < 0 ==> m1 == m0,
        ({
            let idx = find_key(m1, "depends_on"@);
            if idx >= 0 {
                mf == m1.update(idx, (m1[idx].0, v))
            } else {
                mf.len() == m1.len() + 1 && mf.subrange(0, m1.len() as int) == m1 && is_str_key(
                    mf.last(),
                    "depends_on"@,
                ) && mf.last().1 == v
            }
        }),
    ensures
        map_get(mf, "depends_on"@) == Some(v),
        forall|k2: Seq<char>| k2 != "depends_on"@ ==> map_get(mf, k2) == map_get(m0, k2),
{
    lemma_find_key(m1, "depends_on"@);
    if find_key(m1, "depends_on"@) >= 0 {
        lemma_map_update_self(m1, "depends_on"@, v);
    } else {
        assert(mf =~= m1.push(mf.last()));
        lemma_find_key_push(m1, mf.last(), "depends_on"@);
        lemma_map_get_find(mf, "depends_on"@);
        lemma_find_key(mf, "depends_on"@);
    }
    assert forall|k2: Seq<char>| k2 != "depends_on"@ implies map_get(mf, k2) == map_get(
        m0,
        k2,
    ) by {
        lemma_find_key(m0, "depends_on"@);
        if find_key(m0, "depends_on"@) >= 0 {
            lemma_map_remove_other(m0, "depends_on"@, k2);
        }
        if find_key(m1, "depends_on"@) >= 0 {
            lemma_map_update_other(m1, "depends_on"@, v, k2);
        } else {
            assert(mf =~= m1.push(mf.last()));
            lemma_find_key_push(m1, mf.last(), k2);
            lemma_map_get_find(m1, k2);
            lemma_map_get_find(mf, k2);
            lemma_find_key(m1, k2);
            lemma_find_key(mf, k2);
        }
    }
}

proof fn finish_depends_proof_other(
    m0: Seq<(Yaml, Yaml)>,
    m1: Seq<(Yaml, Yaml)>,
    mf: Seq<(Yaml, Yaml)>,
    v: Yaml,
)
    requires
        find_key(m0, "depends_on"@) >= 0 ==> m1 == m0.remove(find_key(m0, "depends_on"@)),
        find_key(m0, "depends_on"@) < 0 ==> m1 == m0,
        !(v matches Yaml::Mapping(_)),
        ({
            let idx = find_key(m1, "depends_on"@);
            if idx >= 0 {
                mf == m1.update(idx, (m1[idx].0, v))
            } else {
                mf.len() == m1.len() + 1 && mf.subrange(0, m1.len() as int) == m1 && is_str_key(
                    mf.last(),
                    "depends_on"@,
                ) && mf.last().1 == v
            }
        }),
    ensures
        map_get(mf, "depends_on"@) == Some(v),
        forall|k2: Seq<char>| k2 != "depends_on"@ ==> map_get(mf, k2) == map_get(m0, k2),
{
    finish_depends_proof(m0, m1, mf, v);
}

/// The port a scalar publication value denotes: an in-range integer, or a
/// string parsed as a port token after cutting at the first `/`.
pub open spec fn spec_value_u16(v: Yaml) -> Option<u16> {
    match v {
        Yaml::Int(i) => if 0 <= i <= u16::MAX {
            Some(i as u16)
        } else {
            None
        },
        Yaml::Str(s) => {
            let head = match crate::ports::first_idx_of(s@, '/') {
                Some(i) => s@.subrange(0, i),
                None => s@,
            };
            crate::ports::spec_port_token(head)
        },
        _ => None,
    }
}

pub fn value_to_u16(v: &Yaml) -> (r: Option<u16>)
    ensures
        r == spec_value_u16(*v),
{
    match v {
        Yaml::Int(i) => if 0 <= *i && *i <= 65535 {
            Some(*i as u16)
        } else {
            None
        },
        Yaml::Str(s) => {
            let cv = crate::strings::str_chars(s.as_str());
            proof {
                crate::ports::lemma_first_idx_of(cv@, '/');
            }
            let head = match crate::strings::chars_find(&cv, '/') {
                Some(i) => {
                    proof {
                        crate::ports::lemma_first_idx_at(cv@, '/', i as int);
                    }
                    crate::strings::chars_slice(&cv, 0, i)
                },
                None => crate::strings::chars_slice(&cv, 0, cv.len()),
            };
            proof {
                if crate::ports::first_idx_of(cv@, '/') is None {
                    assert(head@ =~= cv@);
                }
            }
            crate::ports::parse_port_token(&head)
        },
        _ => None,
    }
}

/// The container port one `ports` entry contributes.
pub open spec fn spec_entry_port(e: Yaml) -> Option<u16> {
    match e {
        Yaml::Str(s) => crate::ports::spec_container_port(s@),
        Yaml::Mapping(m) => match map_get(m@, "target"@) {
            Some(t) => spec_value_u16(t),
            None => None,
        },
        _ => None,
    }
}

pub fn entry_port(e: &Yaml) -> (r: Option<u16>)
    ensures
        r == spec_entry_port(*e),
{
    match e {
        Yaml::Str(s) => crate::ports::parse_container_port(s.as_str()),
        Yaml::Mapping(m) => match map_get_ref(m, "target") {
            Some(t) => value_to_u16(t),
            None => None,
        },
        _ => None,
    }
}

/// Whether `p` is one of the container ports a service publishes or exposes.
pub open spec fn ports_member(m: Seq<(Yaml, Yaml)>, p: u16) -> bool {
    (match map_get(m, "ports"@) {
        Some(Yaml::Sequence(l)) => exists|i: int|
            0 <= i < l@.len() && spec_entry_port(#[trigger] l@[i]) == Some(p),
        _ => false,
    }) || (match map_get(m, "expose"@) {
        Some(Yaml::Sequence(l)) => exists|i: int|
            0 <= i < l@.len() && spec_value_u16(#[trigger] l@[i]) == Some(p),
        _ => false,
    })
}

/// Adds every port a `ports` list contributes, keeping the vector sorted
/// and duplicate-free.
fn add_publication_ports(v: Option<&Yaml>, r: &mut Vec<u16>)
    requires
        crate::ports::strictly_increasing(old(r)@),
    ensures
        crate::ports::strictly_increasing(final(r)@),
        forall|p: u16|
            final(r)@.contains(p) <==> (old(r)@.contains(p) || match v {
                Some(y) => match *y {
                    Yaml::Sequence(l) => exists|i: int|
                        0 <= i < l@.len() && spec_entry_port(#[trigger] l@[i]) == Some(p),
                    _ => false,
                },
                None => false,
            }),
{
    match v {
        Some(Yaml::Sequence(l)) => {
            let ghost r0 = r@;
            let mut i: usize = 0;
            while i < l.len()
                invariant
                    i <= l@.len(),
                    crate::ports::strictly_increasing(r@),
                    forall|p: u16|
                        r@.contains(p) ==> (r0.contains(p) || exists|j: int|
                            0 <= j < i && spec_entry_port(#[trigger] l@[j]) == Some(p)),
                    forall|j: int|
                        0 <= j < i ==> match spec_entry_port(#[trigger] l@[j]) {
                            Some(p) => r@.contains(p),
                            None => true,
                        },
                    forall|p: u16| r0.contains(p) ==> r@.contains(p),
                decreases l@.len() - i,
            {
                let ghost rprev = r@;
                match entry_port(&l[i]) {
                    Some(p) => {
                        crate::ports::sorted_insert(r, p);
                    },
                    None => {},
                }
                i = i + 1;
            }
            proof {
                assert forall|p: u16| r@.contains(p) <==> (r0.contains(p) || exists|j: int|
                    0 <= j < l@.len() && spec_entry_port(#[trigger] l@[j]) == Some(p)) by {
                    if !r@.contains(p) && (exists|j: int|
                        0 <= j < l@.len() && spec_entry_port(#[trigger] l@[j]) == Some(p)) {
                        let j = choose|j: int|
                            0 <= j < l@.len() && spec_entry_port(#[trigger] l@[j]) == Some(p);
                        assert(match spec_entry_port(l@[j]) {
                            Some(p2) => r@.contains(p2),
                            None => true,
                        });
                    }
                }
            }
        },
        _ => {},
    }
}

/// Adds every port an `expose` list contributes.
fn add_expose_ports(v: Option<&Yaml>, r: &mut Vec<u16>)
    requires
        crate::ports::strictly_increasing(old(r)@),
    ensures
        crate::ports::strictly_increasing(final(r)@),
        forall|p: u16|
            final(r)@.contains(p) <==> (old(r)@.contains(p) || match v {
                Some(y) => match *y {
                    Yaml::Sequence(l) => exists|i: int|
                        0 <= i < l@.len() && spec_value_u16(#[trigger] l@[i]) == Some(p),
                    _ => false,
                },
                None => false,
            }),
{
    match v {
        Some(Yaml::Sequence(l)) => {
            let ghost r0 = r@;
            let mut i: usize = 0;
            while i < l.len()
                invariant
                    i <= l@.len(),
                    crate::ports::strictly_increasing(r@),
                    forall|p: u16|
                        r@.contains(p) ==> (r0.contains(p) || exists|j: int|
                            0 <= j < i && spec_value_u16(#[trigger] l@[j]) == Some(p)),
                    forall|j: int|
                        0 <= j < i ==> match spec_value_u16(#[trigger] l@[j]) {
                            Some(p) => r@.contains(p),
                            None => true,
                        },
                    forall|p: u16| r0.contains(p) ==> r@.contains(p),
                decreases l@.len() - i,
            {
                let ghost rprev = r@;
                match value_to_u16(&l[i]) {
                    Some(p) => {
                        crate::ports::sorted_insert(r, p);
                    },
                    None => {},
                }
                i = i + 1;
            }
            proof {
                assert forall|p: u16| r@.contains(p) <==> (r0.contains(p) || exists|j: int|
                    0 <= j < l@.len() && spec_value_u16(#[trigger] l@[j]) == Some(p)) by {
                    if !r@.contains(p) && (exists|j: int|
                        0 <= j < l@.len() && spec_value_u16(#[trigger] l@[j]) == Some(p)) {
                        let j = choose|j: int|
                            0 <= j < l@.len() && spec_value_u16(#[trigger] l@[j]) == Some(p);
                        assert(match spec_value_u16(l@[j]) {
                            Some(p2) => r@.contains(p2),
                            None => true,
                        });
                    }
                }
            }
        },
        _ => {},
    }
}

/// Collects the service's container ports, sorted and without duplicates:
/// exactly the members of `ports_member`.
pub fn extract_ports(m: &Vec<(Yaml, Yaml)>) -> (r: Vec<u16>)
    ensures
        crate::ports::strictly_increasing(r@),
        forall|p: u16| r@.contains(p) <==> ports_member(m@, p),
{
    let mut r: Vec<u16> = Vec::new();
    add_publication_ports(map_get_ref(m, "ports"), &mut r);
    add_expose_ports(map_get_ref(m, "expose"), &mut r);
    r
}

/// The value of the per-service protocol override label, lowercased: the
/// first `sanelens.proxy=` line in list form, or the `sanelens.proxy` entry
/// in mapping form.
pub open spec fn first_override(l: Seq<Yaml>) -> Option<Seq<char>>
    decreases l.len(),
{
    if l.len() == 0 {
        None
    } else {
        match l[0] {
            Yaml::Str(s) => if s@.len() >= "sanelens.proxy="@.len() && s@.subrange(
                0,
                "sanelens.proxy="@.len() as int,
            ) == "sanelens.proxy="@ {
                Some(lower_of(s@.subrange("sanelens.proxy="@.len() as int, s@.len() as int)))
            } else {
                first_override(l.drop_first())
            },
            _ => first_override(l.drop_first()),
        }
    }
}

pub open spec fn lower_of(s: Seq<char>) -> Seq<char> {
    crate::strings::lower_seq(s)
}

pub open spec fn spec_proxy_override(m: Seq<(Yaml, Yaml)>) -> Option<Seq<char>> {
    match map_get(m, "labels"@) {
        Some(Yaml::Sequence(l)) => first_override(l@),
        Some(Yaml::Mapping(lm)) => match map_get(lm@, "sanelens.proxy"@) {
            Some(Yaml::Str(s)) => Some(lower_of(s@)),
            _ => None,
        },
        _ => None,
    }
}

pub fn read_proxy_protocol(m: &Vec<(Yaml, Yaml)>) -> (r: Option<String>)
    ensures
        match r {
            Some(s) => spec_proxy_override(m@) == Some(s@),
            None => spec_proxy_override(m@) is None,
        },
{
    match map_get_ref(m, "labels") {
        Some(Yaml::Sequence(l)) => {
            let mut i: usize = 0;
            proof {
                assert(l@.subrange(0, l@.len() as int) =~= l@);
            }
            while i < l.len()
                invariant
                    i <= l@.len(),
                    first_override(l@) == first_override(l@.subrange(i as int, l@.len() as int)),
                    map_get(m@, "labels"@) == Some(Yaml::Sequence(*l)),
                decreases l@.len() - i,
            {
                proof {
                    let cur = l@.subrange(i as int, l@.len() as int);
                    assert(cur.drop_first() =~= l@.subrange(i + 1, l@.len() as int));
                    assert(cur[0] == l@[i as int]);
                }
                match &l[i] {
                    Yaml::Str(s) => {
                        let sv = crate::strings::str_chars(s.as_str());
                        if crate::strings::chars_starts_with(&sv, "sanelens.proxy=") {
                            let plen = "sanelens.proxy=".unicode_len();
                            let suffix = crate::strings::chars_slice(&sv, plen, sv.len());
                            let lowered = crate::strings::chars_lower(&suffix);
                            let out = crate::strings::chars_into_string(lowered);
                            proof {
                                let cur = l@.subrange(i as int, l@.len() as int);
                                assert(cur[0] == l@[i as int]);
                                assert(first_override(cur) == Some(
                                    lower_of(
                                        s@.subrange(
                                            "sanelens.proxy="@.len() as int,
                                            s@.len() as int,
                                        ),
                                    ),
                                ));
                                assert(out@ == lower_of(
                                    s@.subrange("sanelens.proxy="@.len() as int, s@.len() as int),
                                ));
                                assert(spec_proxy_override(m@) == Some(out@));
                            }
                            return Some(out);
                        }
                    },
                    _ => {},
                }
                i = i + 1;
            }
            None
        },
        Some(Yaml::Mapping(lm)) => {
            match map_get_ref(lm, "sanelens.proxy") {
                Some(Yaml::Str(s)) => {
                    let sv = crate::strings::str_chars(s.as_str());
                    let lowered = crate::strings::chars_lower(&sv);
                    let out = crate::strings::chars_into_string(lowered);
                    proof {
                        assert(spec_proxy_override(m@) == Some(out@));
                    }
                    Some(out)
                },
                _ => None,
            }
        },
        _ => None,
    }
}

/// A service is fronted by a proxy when it is a mapping, does not use host
/// or none networking, publishes at least one port, and does not opt out
/// through the override label.
pub open spec fn spec_proxied(v: Yaml) -> bool {
    match v {
        Yaml::Mapping(m) => {
            &&& !(match map_get(m@, "network_mode"@) {
                Some(Yaml::Str(s)) => s@ == "host"@ || s@ == "none"@,
                _ => false,
            })
            &&& (exists|p: u16| ports_member(m@, p))
            &&& spec_proxy_override(m@) != Some("off"@)
        },
        _ => false,
    }
}

/// The started-at label line prefix.
pub open spec fn started_prefix() -> Seq<char> {
    "sanelens.started.at"@ + "="@
}

/// How stamping transforms one service value: a mapping whose labels are a
/// list gets one more line, `sanelens.started.at=<t>`, at the end; anything
/// else is untouched.
pub open spec fn unstamped_equal(b: Yaml, a: Yaml) -> bool {
    a == b || (match (b, a) {
        (Yaml::Mapping(x), Yaml::Mapping(y)) => y@ == x@,
        _ => false,
    })
}

pub open spec fn stamped_service(b: Yaml, a: Yaml, t: Seq<char>) -> bool {
    match b {
        Yaml::Mapping(m) => {
            let idx = find_key(m@, "labels"@);
            if idx >= 0 && (m@[idx].1 matches Yaml::Sequence(_)) {
                match (a, m@[idx].1) {
                    (Yaml::Mapping(m2), Yaml::Sequence(l)) => {
                        &&& m2@.len() == m@.len()
                        &&& forall|i: int| 0 <= i < m@.len() && i != idx ==> m2@[i] == #[trigger] m@[i]
                        &&& m2@[idx].0 == m@[idx].0
                        &&& match m2@[idx].1 {
                            Yaml::Sequence(l2) => l2@.len() == l@.len() + 1 && (forall|i: int|
                                0 <= i < l@.len() ==> l2@[i] == #[trigger] l@[i]) && line_is(
                                l2@.last(),
                                label_line("sanelens.started.at"@, t),
                            ),
                            _ => false,
                        }
                    },
                    _ => false,
                }
            } else {
                unstamped_equal(b, a)
            }
        },
        _ => a == b,
    }
}

pub open spec fn stamped_services(
    before: Seq<(Yaml, Yaml)>,
    after: Seq<(Yaml, Yaml)>,
    t: Seq<char>,
) -> bool {
    after.len() == before.len() && forall|i: int|
        0 <= i < before.len() ==> (#[trigger] after[i]).0 == before[i].0 && stamped_service(
            before[i].1,
            after[i].1,
            t,
        )
}

/// Stamps the started-at label onto every service. This is the only place
/// the timestamp enters the derived document.
pub fn stamp_started_at(services: &mut Vec<(Yaml, Yaml)>, t: &str)
    ensures
        stamped_services(old(services)@, final(services)@, t@),
{
    let mut i: usize = 0;
    while i < services.len()
        invariant
            i <= services@.len(),
            services@.len() == old(services)@.len(),
            forall|j: int|
                i <= j < services@.len() ==> #[trigger] services@[j] == old(services)@[j],
            forall|j: int|
                0 <= j < i ==> (#[trigger] services@[j]).0 == old(services)@[j].0
                    && stamped_service(old(services)@[j].1, services@[j].1, t@),
        decreases services@.len() - i,
    {
        let entry = services.remove(i);
        let ghost key0 = entry.0;
        let ghost val0 = entry.1;
        let stamped: Yaml = match entry.1 {
            Yaml::Mapping(mut m) => {
                let ghost m0 = m@;
                match map_find(&m, "labels") {
                    Some(idx) => {
                        proof {
                            lemma_find_key(m0, "labels"@);
                        }
                        let le = m.remove(idx);
                        match le.1 {
                            Yaml::Sequence(mut l) => {
                                let mut line = "sanelens.started.at".to_owned();
                                line.append("=");
                                line.append(t);
                                l.push(Yaml::Str(line));
                                m.insert(idx, (le.0, Yaml::Sequence(l)));
                                proof {
                                    lemma_find_key(m0, "labels"@);
                                    assert(m@ =~= m0.update(
                                        idx as int,
                                        (m0[idx as int].0, m@[idx as int].1),
                                    ));
                                }
                                Yaml::Mapping(m)
                            },
                            other => {
                                m.insert(idx, (le.0, other));
                                proof {
                                    assert(m@ =~= m0);
                                }
                                Yaml::Mapping(m)
                            },
                        }
                    },
                    None => Yaml::Mapping(m),
                }
            },
            other => other,
        };
        proof {
            assert(stamped_service(val0, stamped, t@));
        }
        services.insert(i, (entry.0, stamped));
        i = i + 1;
        proof {
            assert(forall|j: int|
                i <= j < services@.len() ==> #[trigger] services@[j] == old(services)@[j]);
        }
    }
}

/// Two documents that differ only in each service's started-at label line.
pub open spec fn svc_eq_except_started(a: Yaml, b: Yaml) -> bool {
    a == b || (match (a, b) {
        (Yaml::Mapping(ma), Yaml::Mapping(mb)) => ma@.len() == mb@.len() && forall|i: int|
            0 <= i < ma@.len() ==> (#[trigger] ma@[i] == mb@[i]) || (ma@[i].0 == mb@[i].0
                && labels_eq_except_started(ma@[i].1, mb@[i].1)),
        _ => false,
    })
}

pub open spec fn labels_eq_except_started(u: Yaml, v: Yaml) -> bool {
    match (u, v) {
        (Yaml::Sequence(lu), Yaml::Sequence(lv)) => lu@.len() == lv@.len() && lu@.len() > 0 && (
        forall|i: int| 0 <= i < lu@.len() - 1 ==> #[trigger] lu@[i] == lv@[i]) && line_starts_with(
            lu@.last(),
            started_prefix(),
        ) && line_starts_with(lv@.last(), started_prefix()),
        _ => false,
    }
}

pub open spec fn services_eq_except_started(x: Seq<(Yaml, Yaml)>, y: Seq<(Yaml, Yaml)>) -> bool {
    x.len() == y.len() && forall|i: int|
        0 <= i < x.len() ==> (#[trigger] x[i]).0 == y[i].0 && svc_eq_except_started(
            x[i].1,
            y[i].1,
        )
}

/// Derivation is insensitive to the started-at timestamp: stamping the same
/// document with two timestamps yields documents equal but for each
/// service's started-at label line. Since stamping is the only step that
/// sees the timestamp, two derivations of one canonical input with one run
/// id differ only there.
pub proof fn lemma_timestamp_isolated(
    before: Seq<(Yaml, Yaml)>,
    a1: Seq<(Yaml, Yaml)>,
    a2: Seq<(Yaml, Yaml)>,
    t1: Seq<char>,
    t2: Seq<char>,
)
    requires
        stamped_services(before, a1, t1),
        stamped_services(before, a2, t2),
    ensures
        services_eq_except_started(a1, a2),
{
    assert forall|i: int| 0 <= i < a1.len() implies (#[trigger] a1[i]).0 == a2[i].0
        && svc_eq_except_started(a1[i].1, a2[i].1) by {
        assert(stamped_service(before[i].1, a1[i].1, t1));
        assert(stamped_service(before[i].1, a2[i].1, t2));
        match before[i].1 {
            Yaml::Mapping(m) => {
                let idx = find_key(m@, "labels"@);
                if idx >= 0 && (m@[idx].1 matches Yaml::Sequence(_)) {
                    match (a1[i].1, a2[i].1) {
                        (Yaml::Mapping(m1), Yaml::Mapping(m2)) => {
                            assert forall|j: int| 0 <= j < m1@.len() implies (#[trigger] m1@[j]
                                == m2@[j]) || (m1@[j].0 == m2@[j].0 && labels_eq_except_started(
                                m1@[j].1,
                                m2@[j].1,
                            )) by {
                                if j != idx {
                                    assert(m1@[j] == m@[j]);
                                    assert(m2@[j] == m@[j]);
                                } else {
                                    assert(label_line("sanelens.started.at"@, t1).subrange(
                                        0,
                                        started_prefix().len() as int,
                                    ) =~= started_prefix());
                                    assert(label_line("sanelens.started.at"@, t2).subrange(
                                        0,
                                        started_prefix().len() as int,
                                    ) =~= started_prefix());
                                    match (m1@[j].1, m2@[j].1, m@[idx].1) {
                                        (
                                            Yaml::Sequence(l2a),
                                            Yaml::Sequence(l2b),
                                            Yaml::Sequence(l),
                                        ) => {
                                            assert(l2a@.len() > 0 && l2b@.len() > 0);
                                            assert(line_is(
                                                l2a@.last(),
                                                label_line("sanelens.started.at"@, t1),
                                            ));
                                            assert(line_is(
                                                l2b@.last(),
                                                label_line("sanelens.started.at"@, t2),
                                            ));
                                            match l2a@.last() {
                                                Yaml::Str(s) => {
                                                    assert(s@.subrange(
                                                        0,
                                                        started_prefix().len() as int,
                                                    ) == started_prefix());
                                                },
                                                _ => {},
                                            }
                                            match l2b@.last() {
                                                Yaml::Str(s) => {
                                                    assert(s@.subrange(
                                                        0,
                                                        started_prefix().len() as int,
                                                    ) == started_prefix());
                                                },
                                                _ => {},
                                            }
                                            assert(line_starts_with(
                                                l2a@.last(),
                                                started_prefix(),
                                            ));
                                            assert(line_starts_with(
                                                l2b@.last(),
                                                started_prefix(),
                                            ));
                                            assert forall|k: int|
                                                0 <= k < l2a@.len() - 1 implies #[trigger] l2a@[k]
                                                == l2b@[k] by {
                                                assert(l2a@[k] == l@[k]);
                                                assert(l2b@[k] == l@[k]);
                                            }
                                            assert(labels_eq_except_started(
                                                m1@[j].1,
                                                m2@[j].1,
                                            ));
                                        },
                                        _ => {},
                                    }
                                    assert(m1@[j].0 == m2@[j].0);
                                }
                            }
                        },
                        _ => {},
                    }
                }
            },
            _ => {},
        }
    }
}

/// Compares two character sequences lexicographically.
pub open spec fn lex_le(a: Seq<char>, b: Seq<char>) -> bool
    decreases a.len(),
{
    if a.len() == 0 {
        true
    } else if b.len() == 0 {
        false
    } else if a[0] != b[0] {
        a[0] < b[0]
    } else {
        lex_le(a.drop_first(), b.drop_first())
    }
}

pub proof fn lemma_lex_le_total(a: Seq<char>, b: Seq<char>)
    ensures
        lex_le(a, b) || lex_le(b, a),
    decreases a.len(),
{
    if a.len() > 0 && b.len() > 0 && a[0] == b[0] {
        lemma_lex_le_total(a.drop_first(), b.drop_first());
    }
}

/// Lexicographic comparison of two strings.
pub fn str_le(a: &str, b: &str) -> (r: bool)
    ensures
        r == lex_le(a@, b@),
{
    let av = crate::strings::str_chars(a);
    let bv = crate::strings::str_chars(b);
    let r = chars_le_from(&av, &bv, 0);
    proof {
        assert(av@.subrange(0, av@.len() as int) =~= a@);
        assert(bv@.subrange(0, bv@.len() as int) =~= b@);
    }
    r
}

fn chars_le_from(a: &Vec<char>, b: &Vec<char>, i: usize) -> (r: bool)
    requires
        i <= a@.len(),
        i <= b@.len(),
        forall|j: int| 0 <= j < i ==> a@[j] == b@[j],
    ensures
        r == lex_le(a@.subrange(i as int, a@.len() as int), b@.subrange(i as int, b@.len() as int)),
    decreases a@.len() - i,
{
    let ghost sa = a@.subrange(i as int, a@.len() as int);
    let ghost sb = b@.subrange(i as int, b@.len() as int);
    if i >= a.len() {
        proof {
            assert(sa.len() == 0);
        }
        return true;
    }
    if i >= b.len() {
        proof {
            assert(sb.len() == 0 && sa.len() > 0);
        }
        return false;
    }
    if a[i] != b[i] {
        proof {
            assert(sa[0] == a@[i as int] && sb[0] == b@[i as int]);
        }
        return a[i] < b[i];
    }
    let r = chars_le_from(a, b, i + 1);
    proof {
        assert(sa[0] == sb[0]);
        assert(sa.drop_first() =~= a@.subrange(i + 1, a@.len() as int));
        assert(sb.drop_first() =~= b@.subrange(i + 1, b@.len() as int));
    }
    r
}

pub open spec fn sorted_names(s: Seq<String>) -> bool {
    forall|i: int, j: int| 0 <= i < j < s.len() ==> lex_le((#[trigger] s[i])@, (#[trigger] s[j])@)
}

/// Inserts a name keeping the vector lexicographically sorted.
fn sorted_insert_name(v: &mut Vec<String>, x: String)
    requires
        sorted_names(old(v)@),
    ensures
        sorted_names(final(v)@),
        final(v)@.len() == old(v)@.len() + 1,
        forall|i: int|
            0 <= i < final(v)@.len() ==> (exists|j: int|
                0 <= j < old(v)@.len() && (#[trigger] old(v)@[j])@ == (#[trigger] final(v)@[i])@)
                || final(v)@[i]@ == x@,
        exists|i: int| 0 <= i < final(v)@.len() && (#[trigger] final(v)@[i])@ == x@,
        forall|j: int|
            0 <= j < old(v)@.len() ==> exists|i: int|
                0 <= i < final(v)@.len() && (#[trigger] final(v)@[i])@ == (#[trigger] old(v)@[j])@,
{
    let mut i: usize = 0;
    while i < v.len() && str_le(v[i].as_str(), x.as_str())
        invariant
            i <= v@.len(),
            v@ == old(v)@,
            sorted_names(v@),
            forall|j: int| 0 <= j < i ==> lex_le((#[trigger] v@[j])@, x@),
        decreases v@.len() - i,
    {
        i = i + 1;
    }
    let ghost before = v@;
    let ghost xg = x;
    v.insert(i, x);
    proof {
        if i < before.len() {
            lemma_lex_le_total(before[i as int]@, xg@);
        }
        assert forall|k: int, l: int| 0 <= k < l < v@.len() implies lex_le(
            (#[trigger] v@[k])@,
            (#[trigger] v@[l])@,
        ) by {
            if l < i {
            } else if k < i && l == i {
            } else if k < i && l > i {
                assert(v@[l] == before[l - 1]);
            } else if k == i {
                assert(v@[l] == before[l - 1]);
                if l - 1 > i {
                    lemma_lex_le_trans(xg@, before[i as int]@, before[l - 1]@);
                }
            } else {
                assert(v@[k] == before[k - 1]);
                assert(v@[l] == before[l - 1]);
            }
        }
        assert forall|k: int|
            0 <= k < v@.len() implies (exists|j: int|
            0 <= j < before.len() && (#[trigger] before[j])@ == (#[trigger] v@[k])@) || v@[k]@
            == xg@ by {
            if k < i {
                assert(before[k]@ == v@[k]@);
            } else if k > i {
                assert(before[k - 1]@ == v@[k]@);
            }
        }
        assert(v@[i as int]@ == xg@);
        assert forall|j: int|
            0 <= j < before.len() implies exists|k: int|
            0 <= k < v@.len() && (#[trigger] v@[k])@ == (#[trigger] before[j])@ by {
            if j < i {
                assert(v@[j]@ == before[j]@);
            } else {
                assert(v@[j + 1]@ == before[j]@);
            }
        }
    }
}

/// Two sequences below one another are equal.
pub proof fn lemma_lex_le_antisym(a: Seq<char>, b: Seq<char>)
    requires
        lex_le(a, b),
        lex_le(b, a),
    ensures
        a == b,
    decreases a.len(),
{
    if a.len() > 0 && b.len() > 0 && a[0] == b[0] {
        lemma_lex_le_antisym(a.drop_first(), b.drop_first());
        assert(a =~= seq![a[0]] + a.drop_first());
        assert(b =~= seq![b[0]] + b.drop_first());
    } else if a.len() == 0 {
        assert(b.len() == 0);
        assert(a =~= b);
    }
}

pub proof fn lemma_lex_le_trans(a: Seq<char>, b: Seq<char>, c: Seq<char>)
    requires
        lex_le(a, b),
        lex_le(b, c),
    ensures
        lex_le(a, c),
    decreases a.len(),
{
    if a.len() > 0 && b.len() > 0 && c.len() > 0 && a[0] == b[0] && b[0] == c[0] {
        lemma_lex_le_trans(a.drop_first(), b.drop_first(), c.drop_first());
    }
}

/// Whether `name` is one of the document's service names.
pub open spec fn is_service_name(doc: Seq<(Yaml, Yaml)>, name: Seq<char>) -> bool {
    match map_get(doc, "services"@) {
        Some(Yaml::Mapping(svcs)) => exists|i: int|
            0 <= i < svcs@.len() && is_str_key(#[trigger] svcs@[i], name),
        _ => false,
    }
}

/// Collects the document's service names, sorted; an error when the
/// document has no `services` mapping.
pub fn collect_service_names(doc: &Vec<(Yaml, Yaml)>) -> (r: Result<Vec<String>, String>)
    ensures
        match r {
            Ok(names) => sorted_names(names@) && (forall|j: int|
                0 <= j < names@.len() ==> is_service_name(doc@, (#[trigger] names@[j])@)) && (
            map_get(doc@, "services"@) matches Some(Yaml::Mapping(svcs)) && forall|i: int|
                0 <= i < svcs@.len() ==> match (#[trigger] svcs@[i]).0 {
                    Yaml::Str(k) => exists|j: int|
                        0 <= j < names@.len() && (#[trigger] names@[j])@ == k@,
                    _ => true,
                }),
            Err(_) => !(map_get(doc@, "services"@) matches Some(Yaml::Mapping(_))),
        },
{
    match map_get_ref(doc, "services") {
        Some(Yaml::Mapping(svcs)) => {
            let mut names: Vec<String> = Vec::new();
            let mut i: usize = 0;
            while i < svcs.len()
                invariant
                    i <= svcs@.len(),
                    sorted_names(names@),
                    map_get(doc@, "services"@) == Some(Yaml::Mapping(*svcs)),
                    forall|j: int|
                        0 <= j < names@.len() ==> exists|k: int|
                            0 <= k < svcs@.len() && is_str_key(
                                #[trigger] svcs@[k],
                                (#[trigger] names@[j])@,
                            ),
                    forall|k: int|
                        0 <= k < i ==> match (#[trigger] svcs@[k]).0 {
                            Yaml::Str(s) => exists|j: int|
                                0 <= j < names@.len() && (#[trigger] names@[j])@ == s@,
                            _ => true,
                        },
                decreases svcs@.len() - i,
            {
                match &svcs[i].0 {
                    Yaml::Str(s) => {
                        let ghost namesv = names@;
                        sorted_insert_name(&mut names, s.clone());
                        proof {
                            assert(is_str_key(svcs@[i as int], s@));
                        }
                    },
                    _ => {},
                }
                i = i + 1;
            }
            Ok(names)
        },
        _ => Err("compose file missing services".to_owned()),
    }
}

/// Whether `name` is one of the document's network names.
pub open spec fn is_network_name(doc: Seq<(Yaml, Yaml)>, name: Seq<char>) -> bool {
    match map_get(doc, "networks"@) {
        Some(Yaml::Mapping(nets)) => exists|i: int|
            0 <= i < nets@.len() && is_str_key(#[trigger] nets@[i], name),
        _ => false,
    }
}

/// Collects the document's network names in order.
pub fn collect_network_names(doc: &Vec<(Yaml, Yaml)>) -> (r: Vec<String>)
    ensures
        forall|j: int| 0 <= j < r@.len() ==> is_network_name(doc@, (#[trigger] r@[j])@),
{
    match map_get_ref(doc, "networks") {
        Some(Yaml::Mapping(nets)) => {
            let mut names: Vec<String> = Vec::new();
            let mut i: usize = 0;
            while i < nets.len()
                invariant
                    i <= nets@.len(),
                    map_get(doc@, "networks"@) == Some(Yaml::Mapping(*nets)),
                    forall|j: int|
                        0 <= j < names@.len() ==> is_network_name(doc@, (#[trigger] names@[j])@),
                decreases nets@.len() - i,
            {
                match &nets[i].0 {
                    Yaml::Str(s) => {
                        let ghost namesv = names@;
                        names.push(s.clone());
                        proof {
                            assert(is_str_key(nets@[i as int], names@.last()@));
                            assert(map_get(doc@, "networks"@)->Some_0->Mapping_0 == *nets);
                            assert(map_get(doc@, "networks"@)->Some_0->Mapping_0@[i as int]
                                == nets@[i as int]);
                            assert(is_network_name(doc@, names@.last()@));
                            assert(forall|j: int|
                                0 <= j < namesv.len() ==> #[trigger] names@[j] == namesv[j]);
                        }
                    },
                    _ => {},
                }
                i = i + 1;
            }
            names
        },
        _ => Vec::new(),
    }
}

/// Sets the document's top-level `name` to the project name.
pub fn set_compose_name(doc: &mut Vec<(Yaml, Yaml)>, project_name: &str)
    ensures
        map_get(final(doc)@, "name"@) matches Some(Yaml::Str(s)) && s@ == project_name@,
        forall|k2: Seq<char>| k2 != "name"@ ==> map_get(final(doc)@, k2) == map_get(old(doc)@, k2),
{
    let ghost m0 = doc@;
    let v = Yaml::Str(project_name.to_owned());
    let ghost vg = v;
    map_put(doc, "name", v);
    proof {
        lemma_map_put_effect(m0, doc@, "name"@, vg);
    }
}

/// Opts the document out of the engine's implicit pod grouping.
pub fn disable_podman_pods(doc: &mut Vec<(Yaml, Yaml)>)
    ensures
        map_get(final(doc)@, "x-podman"@) matches Some(Yaml::Mapping(xp)) && map_get(
            xp@,
            "in_pod"@,
        ) == Some(Yaml::Bool(false)),
        forall|k2: Seq<char>|
            k2 != "x-podman"@ ==> map_get(final(doc)@, k2) == map_get(old(doc)@, k2),
{
    let ghost m0 = doc@;
    let existing = map_remove(doc, "x-podman");
    let ghost m1 = doc@;
    let inner: Vec<(Yaml, Yaml)> = match existing {
        Some(Yaml::Mapping(mut xp)) => {
            let ghost xp0 = xp@;
            map_put(&mut xp, "in_pod", Yaml::Bool(false));
            proof {
                lemma_map_put_effect(xp0, xp@, "in_pod"@, Yaml::Bool(false));
            }
            xp
        },
        _ => {
            let mut xp: Vec<(Yaml, Yaml)> = Vec::new();
            map_put(&mut xp, "in_pod", Yaml::Bool(false));
            proof {
                lemma_map_put_effect(Seq::empty(), xp@, "in_pod"@, Yaml::Bool(false));
            }
            xp
        },
    };
    let ghost innerg = inner@;
    proof {
        assert(map_get(innerg, "in_pod"@) == Some(Yaml::Bool(false)));
    }
    let v = Yaml::Mapping(inner);
    let ghost vg = v;
    map_put(doc, "x-podman", v);
    proof {
        lemma_map_remove_effect(m0, m1, "x-podman"@);
        lemma_map_put_effect(m1, doc@, "x-podman"@, vg);
    }
}

/// Structural equivalence preserves the port a publication entry denotes.
pub proof fn lemma_entry_port_equiv(a: Yaml, b: Yaml)
    requires
        yeq(b, a),
    ensures
        spec_entry_port(a) == spec_entry_port(b),
{
    match (a, b) {
        (Yaml::Mapping(ma), Yaml::Mapping(mb)) => {
            assert(entries_equiv(mb@, ma@));
            lemma_equiv_map_get(mb@, ma@, "target"@);
            match (map_get(ma@, "target"@), map_get(mb@, "target"@)) {
                (Some(x), Some(y)) => {
                    assert(yeq(y, x));
                    lemma_value_u16_equiv(x, y);
                },
                _ => {},
            }
        },
        _ => {},
    }
}

pub proof fn lemma_value_u16_equiv(a: Yaml, b: Yaml)
    requires
        yeq(b, a),
    ensures
        spec_value_u16(a) == spec_value_u16(b),
{
}

/// Structural equivalence preserves the set of published ports.
pub proof fn lemma_ports_member_equiv(a: Seq<(Yaml, Yaml)>, b: Seq<(Yaml, Yaml)>, p: u16)
    requires
        entries_equiv(b, a),
    ensures
        ports_member(a, p) == ports_member(b, p),
{
    lemma_equiv_map_get(b, a, "ports"@);
    lemma_equiv_map_get(b, a, "expose"@);
    match (map_get(a, "ports"@), map_get(b, "ports"@)) {
        (Some(Yaml::Sequence(la)), Some(Yaml::Sequence(lb))) => {
            assert forall|i: int|
                0 <= i < la@.len() implies spec_entry_port(#[trigger] la@[i]) == spec_entry_port(
                lb@[i],
            ) by {
                assert(yeq(lb@[i], la@[i]));
                lemma_entry_port_equiv(la@[i], lb@[i]);
            }
            assert forall|i: int|
                0 <= i < lb@.len() implies spec_entry_port(#[trigger] lb@[i]) == spec_entry_port(
                la@[i],
            ) by {
                assert(yeq(lb@[i], la@[i]));
                lemma_entry_port_equiv(la@[i], lb@[i]);
            }
        },
        _ => {},
    }
    match (map_get(a, "expose"@), map_get(b, "expose"@)) {
        (Some(Yaml::Sequence(la)), Some(Yaml::Sequence(lb))) => {
            assert forall|i: int|
                0 <= i < la@.len() implies spec_value_u16(#[trigger] la@[i]) == spec_value_u16(
                lb@[i],
            ) by {
                assert(yeq(lb@[i], la@[i]));
            }
            assert forall|i: int|
                0 <= i < lb@.len() implies spec_value_u16(#[trigger] lb@[i]) == spec_value_u16(
                la@[i],
            ) by {
                assert(yeq(lb@[i], la@[i]));
            }
        },
        _ => {},
    }
}

/// Structural equivalence preserves the protocol override label.
pub proof fn lemma_override_equiv(a: Seq<(Yaml, Yaml)>, b: Seq<(Yaml, Yaml)>)
    requires
        entries_equiv(b, a),
    ensures
        spec_proxy_override(a) == spec_proxy_override(b),
{
    lemma_equiv_map_get(b, a, "labels"@);
    match (map_get(a, "labels"@), map_get(b, "labels"@)) {
        (Some(Yaml::Sequence(la)), Some(Yaml::Sequence(lb))) => {
            lemma_first_override_equiv(la@, lb@);
        },
        (Some(Yaml::Mapping(la)), Some(Yaml::Mapping(lb))) => {
            assert(entries_equiv(lb@, la@));
            lemma_equiv_map_get(lb@, la@, "sanelens.proxy"@);
        },
        _ => {},
    }
}

proof fn lemma_first_override_equiv(la: Seq<Yaml>, lb: Seq<Yaml>)
    requires
        la.len() == lb.len(),
        forall|i: int| 0 <= i < la.len() ==> yeq(#[trigger] lb[i], la[i]),
    ensures
        first_override(la) == first_override(lb),
    decreases la.len(),
{
    if la.len() > 0 {
        assert(yeq(lb[0], la[0]));
        assert(la.drop_first().len() == lb.drop_first().len());
        assert forall|i: int|
            0 <= i < la.drop_first().len() implies yeq(
            #[trigger] lb.drop_first()[i],
            la.drop_first()[i],
        ) by {
            assert(lb.drop_first()[i] == lb[i + 1]);
            assert(la.drop_first()[i] == la[i + 1]);
        }
        lemma_first_override_equiv(la.drop_first(), lb.drop_first());
    }
}

/// Structural equivalence preserves proxied-ness.
pub proof fn lemma_proxied_equiv(a: Yaml, b: Yaml)
    requires
        yeq(b, a),
    ensures
        spec_proxied(a) == spec_proxied(b),
{
    match (a, b) {
        (Yaml::Mapping(ma), Yaml::Mapping(mb)) => {
            assert(entries_equiv(mb@, ma@));
            lemma_equiv_map_get(mb@, ma@, "network_mode"@);
            lemma_override_equiv(ma@, mb@);
            assert forall|p: u16| true implies ports_member(ma@, p) == ports_member(mb@, p) by {
                lemma_ports_member_equiv(ma@, mb@, p);
            }
        },
        _ => {},
    }
}

/// Builds the `expose` list the app variant keeps: one decimal entry per
/// container port, then the entries of the original `expose` value.
pub fn build_expose_value(ports: &Vec<u16>, original: Option<&Yaml>) -> (r: Option<Yaml>)
    ensures
        match r {
            Some(v) => v matches Yaml::Sequence(l) && l@.len() >= ports@.len() && forall|i: int|
                0 <= i < ports@.len() ==> match #[trigger] l@[i] {
                    Yaml::Str(s) => crate::strings::all_digits(s@) && crate::strings::dec_value(s@)
                        == ports@[i],
                    _ => false,
                },
            None => ports@.len() == 0,
        },
{
    let mut items: Vec<Yaml> = Vec::new();
    let mut i: usize = 0;
    while i < ports.len()
        invariant
            i <= ports@.len(),
            items@.len() == i,
            forall|j: int|
                0 <= j < i ==> match #[trigger] items@[j] {
                    Yaml::Str(s) => crate::strings::all_digits(s@) && crate::strings::dec_value(s@)
                        == ports@[j],
                    _ => false,
                },
        decreases ports@.len() - i,
    {
        let text = crate::strings::u64_dec_string(ports[i] as u64);
        items.push(Yaml::Str(text));
        i = i + 1;
    }
    match original {
        Some(Yaml::Sequence(entries)) => {
            let mut j: usize = 0;
            while j < entries.len()
                invariant
                    j <= entries@.len(),
                    items@.len() == ports@.len() + j,
                    forall|k: int|
                        0 <= k < ports@.len() ==> match #[trigger] items@[k] {
                            Yaml::Str(s) => crate::strings::all_digits(s@)
                                && crate::strings::dec_value(s@) == ports@[k],
                            _ => false,
                        },
                decreases entries@.len() - j,
            {
                items.push(entries[j].duplicate());
                j = j + 1;
            }
        },
        _ => {},
    }
    if items.len() == 0 {
        None
    } else {
        Some(Yaml::Sequence(items))
    }
}

/// Gives the app variant its `expose` entries so the proxy reaches it by
/// service DNS name.
pub fn ensure_expose_ports(svc: &mut Vec<(Yaml, Yaml)>, ports: &Vec<u16>, original: Option<&Yaml>)
    ensures
        forall|k2: Seq<char>|
            k2 != "expose"@ ==> map_get(final(svc)@, k2) == map_get(old(svc)@, k2),
{
    let ghost m0 = svc@;
    match build_expose_value(ports, original) {
        Some(v) => {
            let ghost vg = v;
            map_put(svc, "expose", v);
            proof {
                lemma_map_put_effect(m0, svc@, "expose"@, vg);
            }
        },
        None => {},
    }
}

/// The proxy waits for its app variant to start.
pub fn build_proxy_depends_on(app_name: &str) -> (r: Yaml)
    ensures
        r matches Yaml::Mapping(m) && m@.len() == 1 && is_str_key(m@[0], app_name@),
{
    let mut m: Vec<(Yaml, Yaml)> = Vec::new();
    let empty: Vec<(Yaml, Yaml)> = Vec::new();
    m.push((Yaml::Str(app_name.to_owned()), Yaml::Mapping(empty)));
    Yaml::Mapping(m)
}

/// Pins the proxy image's entrypoint when implicit pods are disabled.
pub fn add_envoy_entrypoint(svc: &mut Vec<(Yaml, Yaml)>)
    ensures
        forall|k2: Seq<char>|
            k2 != "entrypoint"@ && k2 != "command"@ ==> map_get(final(svc)@, k2) == map_get(
                old(svc)@,
                k2,
            ),
{
    let ghost m0 = svc@;
    let mut ep: Vec<Yaml> = Vec::new();
    ep.push(Yaml::Str("envoy".to_owned()));
    let epv = Yaml::Sequence(ep);
    let ghost epg = epv;
    map_put(svc, "entrypoint", epv);
    let ghost m1 = svc@;
    let mut cmd: Vec<Yaml> = Vec::new();
    cmd.push(Yaml::Str("-c".to_owned()));
    cmd.push(Yaml::Str("/etc/envoy/envoy.yaml".to_owned()));
    let cmdv = Yaml::Sequence(cmd);
    let ghost cmdg = cmdv;
    map_put(svc, "command", cmdv);
    proof {
        lemma_map_put_effect(m0, m1, "entrypoint"@, epg);
        lemma_map_put_effect(m1, svc@, "command"@, cmdg);
    }
}

/// Rewrites one path-bearing value: exact resolution against the base
/// directory for plain values, and a best-effort rewrite of the default
/// inside `${VAR:-default}` / `${VAR-default}` expressions.
pub fn rewrite_path_value(
    v: &Vec<char>,
    base: &str,
    kind: crate::paths::PathKind,
    home: Option<&String>,
) -> (r: Option<String>)
    requires
        crate::paths::is_abs(base@),
    ensures
        !v@.contains('$') ==> match r {
            Some(s) => crate::paths::rewritten_plain(v@, base@, kind, match home {
                Some(h) => Some(h@),
                None => None,
            }) == Some(s@) && crate::paths::is_abs(s@),
            None => crate::paths::rewritten_plain(v@, base@, kind, match home {
                Some(h) => Some(h@),
                None => None,
            }) is None,
        },
{
    let has_dollar = match crate::strings::chars_find(v, '$') {
        Some(_) => true,
        None => false,
    };
    proof {
        if v@.contains('$') {
            let k = choose|k: int| 0 <= k < v@.len() && v@[k] == '$';
            assert(v@[k] == '$');
        }
    }
    if has_dollar {
        return rewrite_default_expr(v, base, kind, home);
    }
    crate::paths::rewrite_plain_path(v, base, kind, home)
}

/// Rewrites the default of a `${VAR:-default}` or `${VAR-default}` value,
/// keeping the variable and operator: the derived file stays overridable
/// while its fallback is location-independent.
fn rewrite_default_expr(
    v: &Vec<char>,
    base: &str,
    kind: crate::paths::PathKind,
    home: Option<&String>,
) -> (r: Option<String>)
    requires
        crate::paths::is_abs(base@),
{
    let t = crate::strings::chars_trim(v);
    if !(t.len() >= 3 && t[0] == '$' && t[1] == '{' && t[t.len() - 1] == '}') {
        return None;
    }
    let inner = crate::strings::chars_slice(&t, 2, t.len() - 1);
    let (var, op, default): (Vec<char>, &str, Vec<char>) = match crate::ports::find_colon_dash(
        &inner,
    ) {
        Some(i) => {
            proof {
                crate::ports::lemma_first_idx_of_colon_dash(inner@);
            }
            (
                crate::strings::chars_slice(&inner, 0, i),
                ":-",
                crate::strings::chars_slice(&inner, i + 2, inner.len()),
            )
        },
        None => {
            proof {
                crate::ports::lemma_first_idx_of(inner@, '-');
            }
            match crate::strings::chars_find(&inner, '-') {
                Some(i) => {
                    proof {
                        crate::ports::lemma_first_idx_at(inner@, '-', i as int);
                    }
                    (
                        crate::strings::chars_slice(&inner, 0, i),
                        "-",
                        crate::strings::chars_slice(&inner, i + 1, inner.len()),
                    )
                },
                None => {
                    return None;
                },
            }
        },
    };
    let dt = crate::strings::chars_trim(&default);
    if dt.len() == 0 {
        return None;
    }
    if (matches!(kind, crate::paths::PathKind::Volume) || matches!(
        kind,
        crate::paths::PathKind::Unknown,
    )) && !crate::paths::is_probably_path(&dt) {
        return None;
    }
    let rewritten = match crate::paths::rewrite_plain_path(
        &dt,
        base,
        crate::paths::PathKind::Unknown,
        home,
    ) {
        Some(s) => s,
        None => {
            return None;
        },
    };
    let vt = crate::strings::chars_trim(&var);
    let mut out = "${".to_owned();
    out.append(crate::strings::chars_into_string(vt).as_str());
    out.append(op);
    out.append(rewritten.as_str());
    out.append("}");
    Some(out)
}

/// Rewrites the source of a short-form volume entry; the rewritten entry
/// starts with an absolute source path.
pub fn rewrite_volume_short(v: &Vec<char>, base: &str, home: Option<&String>) -> (r: Option<
    String,
>)
    requires
        crate::paths::is_abs(base@),
    ensures
        match r {
            Some(u) => crate::paths::is_abs(u@),
            None => true,
        },
{
    let parts = crate::strings::chars_split(v, ':');
    if parts.len() < 2 {
        return None;
    }
    let first = &parts[0];
    if first.len() == 0 {
        return None;
    }
    let source_has_dollar = match crate::strings::chars_find(first, '$') {
        Some(_) => true,
        None => false,
    };
    if source_has_dollar {
        return None;
    }
    let kind = if crate::paths::is_probably_path(first) {
        crate::paths::PathKind::Dir
    } else {
        crate::paths::PathKind::Volume
    };
    let updated = match crate::paths::rewrite_plain_path(first, base, kind, home) {
        Some(s) => s,
        None => {
            return None;
        },
    };
    let mut out = updated;
    let mut j: usize = 1;
    while j < parts.len()
        invariant
            1 <= j <= parts@.len(),
            crate::paths::is_abs(out@),
        decreases parts@.len() - j,
    {
        out.append(":");
        let piece = crate::strings::chars_string(&parts[j]);
        out.append(piece.as_str());
        j = j + 1;
    }
    Some(out)
}

/// Rewrites the path-bearing fields of one service in place: build context
/// and additional contexts, env files, volume sources, and `extends.file`.
/// Every other key keeps its binding.
pub fn rewrite_service_paths(svc: &mut Vec<(Yaml, Yaml)>, base: &str, home: Option<&String>)
    requires
        crate::paths::is_abs(base@),
    ensures
        forall|k2: Seq<char>|
            k2 != "build"@ && k2 != "env_file"@ && k2 != "volumes"@ && k2 != "extends"@
                ==> map_get(final(svc)@, k2) == map_get(old(svc)@, k2),
{
    let ghost m0 = svc@;
    rewrite_one_path_field(svc, "build", base, home, crate::paths::PathKind::Dir);
    let ghost m1 = svc@;
    rewrite_one_path_field(svc, "env_file", base, home, crate::paths::PathKind::File);
    let ghost m2 = svc@;
    rewrite_one_path_field(svc, "volumes", base, home, crate::paths::PathKind::Dir);
    let ghost m3 = svc@;
    rewrite_one_path_field(svc, "extends", base, home, crate::paths::PathKind::File);
}

/// Rewrites one path-bearing field of a service; the field's many shapes
/// (scalar, list, nested mapping) are each resolved against the base.
fn rewrite_one_path_field(
    svc: &mut Vec<(Yaml, Yaml)>,
    field: &str,
    base: &str,
    home: Option<&String>,
    kind: crate::paths::PathKind,
)
    requires
        crate::paths::is_abs(base@),
    ensures
        forall|k2: Seq<char>|
            k2 != field@ ==> map_get(final(svc)@, k2) == map_get(old(svc)@, k2),
{
    let ghost m0 = svc@;
    let existing = map_remove(svc, field);
    let ghost m1 = svc@;
    match existing {
        Some(value) => {
            let rewritten = rewrite_path_field_value(value, field, base, home, kind);
            let ghost vg = rewritten;
            map_put(svc, field, rewritten);
            proof {
                lemma_map_remove_effect(m0, m1, field@);
                lemma_map_put_effect(m1, svc@, field@, vg);
            }
        },
        None => {},
    }
}

/// Rewrites the inner shapes of one path-bearing field value.
fn rewrite_path_field_value(
    value: Yaml,
    field: &str,
    base: &str,
    home: Option<&String>,
    kind: crate::paths::PathKind,
) -> (r: Yaml)
    requires
        crate::paths::is_abs(base@),
{
    let is_volumes = crate::strings::str_eq(field, "volumes");
    let is_extends = crate::strings::str_eq(field, "extends");
    let is_build = crate::strings::str_eq(field, "build");
    match value {
        Yaml::Str(s) => {
            let sv = crate::strings::str_chars(s.as_str());
            match rewrite_path_value(&sv, base, kind, home) {
                Some(u) => Yaml::Str(u),
                None => Yaml::Str(s),
            }
        },
        Yaml::Sequence(items) => {
            let mut out: Vec<Yaml> = Vec::new();
            let mut i: usize = 0;
            while i < items.len()
                invariant
                    i <= items@.len(),
                    crate::paths::is_abs(base@),
                decreases items@.len() - i,
            {
                match &items[i] {
                    Yaml::Str(s) => {
                        let sv = crate::strings::str_chars(s.as_str());
                        let replaced = if is_volumes {
                            rewrite_volume_short(&sv, base, home)
                        } else {
                            rewrite_path_value(&sv, base, kind, home)
                        };
                        match replaced {
                            Some(u) => out.push(Yaml::Str(u)),
                            None => out.push(Yaml::Str(s.clone())),
                        }
                    },
                    other => {
                        if is_volumes {
                            out.push(rewrite_long_volume(other, base, home));
                        } else {
                            out.push(other.duplicate());
                        }
                    },
                }
                i = i + 1;
            }
            Yaml::Sequence(out)
        },
        Yaml::Mapping(mut m) => {
            if is_build {
                rewrite_mapping_str_field(&mut m, "context", base, home, crate::paths::PathKind::Dir);
                rewrite_additional_contexts(&mut m, base, home);
            } else if is_extends {
                rewrite_mapping_str_field(&mut m, "file", base, home, crate::paths::PathKind::File);
            }
            Yaml::Mapping(m)
        },
        other => other,
    }
}

/// Rewrites the `source` of a long-form volume entry by its declared type.
fn rewrite_long_volume(entry: &Yaml, base: &str, home: Option<&String>) -> (r: Yaml)
    requires
        crate::paths::is_abs(base@),
{
    match entry {
        Yaml::Mapping(m) => {
            let kind = match map_get_str(m, "type") {
                Some(t) => if crate::strings::str_eq(t.as_str(), "bind") {
                    crate::paths::PathKind::Dir
                } else if crate::strings::str_eq(t.as_str(), "volume") {
                    crate::paths::PathKind::Volume
                } else {
                    crate::paths::PathKind::Unknown
                },
                None => crate::paths::PathKind::Unknown,
            };
            let mut copy = match entry.duplicate() {
                Yaml::Mapping(c) => c,
                _ => Vec::new(),
            };
            rewrite_mapping_str_field(&mut copy, "source", base, home, kind);
            Yaml::Mapping(copy)
        },
        other => other.duplicate(),
    }
}

/// Rewrites one string-valued key inside a mapping.
fn rewrite_mapping_str_field(
    m: &mut Vec<(Yaml, Yaml)>,
    key: &str,
    base: &str,
    home: Option<&String>,
    kind: crate::paths::PathKind,
)
    requires
        crate::paths::is_abs(base@),
    ensures
        forall|k2: Seq<char>| k2 != key@ ==> map_get(final(m)@, k2) == map_get(old(m)@, k2),
{
    let ghost m0 = m@;
    let existing = map_remove(m, key);
    let ghost m1 = m@;
    match existing {
        Some(Yaml::Str(s)) => {
            let sv = crate::strings::str_chars(s.as_str());
            let replaced = match rewrite_path_value(&sv, base, kind, home) {
                Some(u) => Yaml::Str(u),
                None => Yaml::Str(s),
            };
            let ghost vg = replaced;
            map_put(m, key, replaced);
            proof {
                lemma_map_remove_effect(m0, m1, key@);
                lemma_map_put_effect(m1, m@, key@, vg);
            }
        },
        Some(other) => {
            let ghost vg = other;
            map_put(m, key, other);
            proof {
                lemma_map_remove_effect(m0, m1, key@);
                lemma_map_put_effect(m1, m@, key@, vg);
            }
        },
        None => {},
    }
}

/// Rewrites the `additional_contexts` mapping of a build block.
fn rewrite_additional_contexts(m: &mut Vec<(Yaml, Yaml)>, base: &str, home: Option<&String>)
    requires
        crate::paths::is_abs(base@),
    ensures
        forall|k2: Seq<char>|
            k2 != "additional_contexts"@ ==> map_get(final(m)@, k2) == map_get(old(m)@, k2),
{
    let ghost m0 = m@;
    let existing = map_remove(m, "additional_contexts");
    let ghost m1 = m@;
    match existing {
        Some(Yaml::Mapping(ctxs)) => {
            let mut out: Vec<(Yaml, Yaml)> = Vec::new();
            let mut i: usize = 0;
            while i < ctxs.len()
                invariant
                    i <= ctxs@.len(),
                    crate::paths::is_abs(base@),
                decreases ctxs@.len() - i,
            {
                let k = ctxs[i].0.duplicate();
                let v = match &ctxs[i].1 {
                    Yaml::Str(s) => {
                        let sv = crate::strings::str_chars(s.as_str());
                        match rewrite_path_value(&sv, base, crate::paths::PathKind::Dir, home) {
                            Some(u) => Yaml::Str(u),
                            None => Yaml::Str(s.clone()),
                        }
                    },
                    other => other.duplicate(),
                };
                out.push((k, v));
                i = i + 1;
            }
            let ghost vg = Yaml::Mapping(out);
            map_put(m, "additional_contexts", Yaml::Mapping(out));
            proof {
                lemma_map_remove_effect(m0, m1, "additional_contexts"@);
                lemma_map_put_effect(m1, m@, "additional_contexts"@, vg);
            }
        },
        Some(other) => {
            let ghost vg = other;
            map_put(m, "additional_contexts", other);
            proof {
                lemma_map_remove_effect(m0, m1, "additional_contexts"@);
                lemma_map_put_effect(m1, m@, "additional_contexts"@, vg);
            }
        },
        None => {},
    }
}

/// Rewrites the `file` entries of the top-level `configs` and `secrets`.
pub fn rewrite_top_level_paths(doc: &mut Vec<(Yaml, Yaml)>, base: &str, home: Option<&String>)
    requires
        crate::paths::is_abs(base@),
    ensures
        forall|k2: Seq<char>|
            k2 != "configs"@ && k2 != "secrets"@ ==> map_get(final(doc)@, k2) == map_get(
                old(doc)@,
                k2,
            ),
{
    rewrite_named_file_entries(doc, "configs", base, home);
    rewrite_named_file_entries(doc, "secrets", base, home);
}

fn rewrite_named_file_entries(
    doc: &mut Vec<(Yaml, Yaml)>,
    field: &str,
    base: &str,
    home: Option<&String>,
)
    requires
        crate::paths::is_abs(base@),
    ensures
        forall|k2: Seq<char>|
            k2 != field@ ==> map_get(final(doc)@, k2) == map_get(old(doc)@, k2),
{
    let ghost m0 = doc@;
    let existing = map_remove(doc, field);
    let ghost m1 = doc@;
    match existing {
        Some(Yaml::Mapping(entries)) => {
            let mut out: Vec<(Yaml, Yaml)> = Vec::new();
            let mut i: usize = 0;
            while i < entries.len()
                invariant
                    i <= entries@.len(),
                    crate::paths::is_abs(base@),
                decreases entries@.len() - i,
            {
                let k = entries[i].0.duplicate();
                let v = match &entries[i].1 {
                    Yaml::Mapping(def) => {
                        let mut copy = match entries[i].1.duplicate() {
                            Yaml::Mapping(c) => c,
                            _ => Vec::new(),
                        };
                        rewrite_mapping_str_field(
                            &mut copy,
                            "file",
                            base,
                            home,
                            crate::paths::PathKind::File,
                        );
                        Yaml::Mapping(copy)
                    },
                    other => other.duplicate(),
                };
                out.push((k, v));
                i = i + 1;
            }
            let ghost vg = Yaml::Mapping(out);
            map_put(doc, field, Yaml::Mapping(out));
            proof {
                lemma_map_remove_effect(m0, m1, field@);
                lemma_map_put_effect(m1, doc@, field@, vg);
            }
        },
        Some(other) => {
            let ghost vg = other;
            map_put(doc, field, other);
            proof {
                lemma_map_remove_effect(m0, m1, field@);
                lemma_map_put_effect(m1, doc@, field@, vg);
            }
        },
        None => {},
    }
}

/// The fixed service keys the derivation moves around are pairwise
/// distinct.
pub proof fn lemma_keys_distinct()
    ensures
        "ports"@ != "container_name"@,
        "ports"@ != "expose"@,
        "ports"@ != "volumes"@,
        "ports"@ != "labels"@,
        "ports"@ != "environment"@,
        "labels"@ != "environment"@,
        "labels"@ != "expose"@,
        "labels"@ != "container_name"@,
        "labels"@ != "volumes"@,
        "labels"@ != "depends_on"@,
        "depends_on"@ != "environment"@,
        "ports"@ != "depends_on"@,
        "image"@ != "entrypoint"@,
        "image"@ != "command"@,
        "image"@ != "restart"@,
        "image"@ != "networks"@,
        "image"@ != "depends_on"@,
        "image"@ != "ports"@,
        "image"@ != "container_name"@,
        "image"@ != "expose"@,
        "image"@ != "volumes"@,
        "image"@ != "labels"@,
        "depends_on"@ != "container_name"@,
        "depends_on"@ != "expose"@,
        "depends_on"@ != "volumes"@,
        "depends_on"@ != "entrypoint"@,
        "depends_on"@ != "command"@,
        "services"@ != "name"@,
        "services"@ != "configs"@,
        "services"@ != "secrets"@,
        "services"@ != "x-podman"@,
{
    reveal_strlit("ports");
    reveal_strlit("container_name");
    reveal_strlit("expose");
    reveal_strlit("volumes");
    reveal_strlit("labels");
    reveal_strlit("environment");
    reveal_strlit("depends_on");
    reveal_strlit("services");
    reveal_strlit("image");
    reveal_strlit("entrypoint");
    reveal_strlit("command");
    reveal_strlit("restart");
    reveal_strlit("networks");
    assert("image"@.len() == 5);
    assert("entrypoint"@.len() == 10);
    assert("command"@.len() == 7);
    assert("restart"@.len() == 7);
    assert("networks"@.len() == 8);
    assert("image"@[0] == 'i');
    assert("ports"@[0] == 'p');
    assert("entrypoint"@[0] == 'e');
    assert("depends_on"@[0] == 'd');
    reveal_strlit("name");
    reveal_strlit("configs");
    reveal_strlit("secrets");
    reveal_strlit("x-podman");
    assert("services"@.len() == 8);
    assert("name"@.len() == 4);
    assert("configs"@.len() == 7);
    assert("secrets"@.len() == 7);
    assert("x-podman"@.len() == 8);
    assert("services"@[0] == 's');
    assert("x-podman"@[0] == 'x');
    assert("ports"@.len() == 5);
    assert("container_name"@.len() == 14);
    assert("expose"@.len() == 6);
    assert("volumes"@.len() == 7);
    assert("labels"@.len() == 6);
    assert("environment"@.len() == 11);
    assert("depends_on"@.len() == 10);
    assert("labels"@[0] == 'l');
    assert("expose"@[0] == 'e');
}

/// What derivation needs to know about the run.
pub struct DeriveConfig {
    pub run_id: String,
    pub run_started_at: String,
    pub envoy_image: String,
    pub enable_traffic: bool,
    pub enable_egress: bool,
    pub compose_cmd: Vec<String>,
    pub compose_args: Vec<String>,
    pub compose_file_from_args: bool,
    pub disable_pods: bool,
}

/// What a finished derivation hands back for the supervisor to act on.
pub struct DerivedCompose {
    pub path: String,
    pub run_dir: String,
    pub proxy_services: Vec<String>,
    pub app_service_map: Vec<(String, String)>,
    pub egress_proxy: Option<String>,
}

/// The full result: the derived document, the sidecar configurations to
/// write, the tap directories to create, and the run bookkeeping.
pub struct Derivation {
    pub doc: Vec<(Yaml, Yaml)>,
    pub envoy_configs: Vec<(String, String)>,
    pub tap_services: Vec<String>,
    pub info: DerivedCompose,
}

/// The outcome of deriving one service.
pub enum ServiceOutput {
    Plain(Yaml),
    Proxied { proxy: Vec<(Yaml, Yaml)>, app: Vec<(Yaml, Yaml)>, modes: Vec<(u16, crate::ports::ProxyProtocol)> },
}

/// The environment values every egress-aware service receives.
fn apply_egress_env(svc: &mut Vec<(Yaml, Yaml)>, no_proxy_value: &str)
    ensures
        env_defines(final(svc)@, "HTTP_PROXY"@),
        env_defines(final(svc)@, "HTTPS_PROXY"@),
        env_defines(final(svc)@, "NO_PROXY"@),
        forall|k2: Seq<char>|
            k2 != "environment"@ ==> map_get(final(svc)@, k2) == map_get(old(svc)@, k2),
{
    ensure_env_var(svc, "HTTP_PROXY", "http://sanelens-egress-proxy:15001");
    ensure_env_var(svc, "HTTPS_PROXY", "http://sanelens-egress-proxy:15001");
    merge_env_var(svc, "NO_PROXY", no_proxy_value);
}

/// Derives one service of the canonical document. A service with host or
/// none networking, without ports, or opted out stays one service; an
/// eligible one splits into a proxy (owning the original name and its port
/// publications) and an app variant.
#[verifier::rlimit(60)]
pub fn derive_one_service(
    name: &str,
    orig: &Yaml,
    labels: &RunLabels,
    envoy_image: &str,
    enable_egress: bool,
    no_proxy_value: &str,
    disable_pods: bool,
    config_mount: &str,
    tap_mount: &str,
) -> (r: ServiceOutput)
    ensures
        match r {
            ServiceOutput::Plain(v) => !spec_proxied(*orig) && ((*orig matches Yaml::Mapping(_))
                ==> svc_run_labeled(v, name@, *labels)) && (!(*orig matches Yaml::Mapping(_))
                ==> !(v matches Yaml::Mapping(_))),
            ServiceOutput::Proxied { proxy, app, modes } => {
                &&& spec_proxied(*orig)
                &&& entries_run_labeled(proxy@, name@, *labels)
                &&& entries_run_labeled(app@, name@, *labels)
                &&& has_label_entries(proxy@, "sanelens.proxy"@, "true"@)
                &&& has_label_entries(proxy@, "sanelens.proxy.name"@, name@)
                &&& has_label_entries(app@, "sanelens.app"@, "true"@)
                &&& has_label_entries(app@, "sanelens.app.name"@, name@)
                &&& (match map_get(proxy@, "image"@) {
                    Some(Yaml::Str(im)) => im@ == envoy_image@,
                    _ => false,
                })
                &&& (match map_get(proxy@, "depends_on"@) {
                    Some(Yaml::Mapping(d)) => d@.len() == 1 && is_str_key(d@[0], name@ + "-app"@),
                    _ => false,
                })
                &&& match *orig {
                    Yaml::Mapping(om) => match map_get(om@, "ports"@) {
                        Some(pv) => map_get(proxy@, "ports"@) matches Some(pv2) && yeq(pv2, pv),
                        None => true,
                    },
                    _ => false,
                }
            },
        },
{
    match orig {
        Yaml::Mapping(_) => {},
        _ => {
            let d = orig.duplicate();
            proof {
                assert(yeq(d, *orig));
            }
            return ServiceOutput::Plain(d);
        },
    }
    let dup = orig.duplicate();
    let mut svc: Vec<(Yaml, Yaml)> = match dup {
        Yaml::Mapping(m) => m,
        _ => Vec::new(),
    };
    proof {
        lemma_proxied_equiv(*orig, Yaml::Mapping(svc));
        match orig {
            Yaml::Mapping(om) => {
                assert(entries_equiv(svc@, om@));
                lemma_equiv_map_get(svc@, om@, "ports"@);
                lemma_equiv_map_get(svc@, om@, "network_mode"@);
                lemma_override_equiv(om@, svc@);
                assert forall|p: u16| true implies ports_member(om@, p) == ports_member(
                    svc@,
                    p,
                ) by {
                    lemma_ports_member_equiv(om@, svc@, p);
                }
            },
            _ => {},
        }
    }
    let ghost svc0 = svc@;
    let network_mode = map_get_str(&svc, "network_mode");
    let skip_network = match &network_mode {
        Some(m) => crate::strings::str_eq(m.as_str(), "host") || crate::strings::str_eq(
            m.as_str(),
            "none",
        ),
        None => false,
    };
    if skip_network {
        add_run_labels(&mut svc, name, labels);
        return ServiceOutput::Plain(Yaml::Mapping(svc));
    }
    let ports = extract_ports(&svc);
    if ports.len() == 0 {
        proof {
            assert(!(exists|p: u16| ports_member(svc0, p))) by {
                assert(forall|p: u16| !ports@.contains(p));
            }
        }
        if enable_egress {
            apply_egress_env(&mut svc, no_proxy_value);
        }
        add_run_labels(&mut svc, name, labels);
        return ServiceOutput::Plain(Yaml::Mapping(svc));
    }
    proof {
        assert(ports_member(svc0, ports@[0])) by {
            assert(ports@.contains(ports@[0]));
        }
    }
    let protocol_override = read_proxy_protocol(&svc);
    let opted_off = match &protocol_override {
        Some(v) => crate::strings::str_eq(v.as_str(), "off"),
        None => false,
    };
    if opted_off {
        if enable_egress {
            apply_egress_env(&mut svc, no_proxy_value);
        }
        add_run_labels(&mut svc, name, labels);
        return ServiceOutput::Plain(Yaml::Mapping(svc));
    }
    // decide the protocol per port
    let force_http = match &protocol_override {
        Some(v) => crate::strings::str_eq(v.as_str(), "http"),
        None => false,
    };
    let force_tcp = match &protocol_override {
        Some(v) => crate::strings::str_eq(v.as_str(), "tcp"),
        None => false,
    };
    let mut modes: Vec<(u16, crate::ports::ProxyProtocol)> = Vec::new();
    let mut pi: usize = 0;
    while pi < ports.len()
        invariant
            pi <= ports@.len(),
        decreases ports@.len() - pi,
    {
        let p = ports[pi];
        let mode = if force_http {
            crate::ports::ProxyProtocol::Http
        } else if force_tcp {
            crate::ports::ProxyProtocol::Tcp
        } else {
            crate::ports::guess_protocol(p)
        };
        modes.push((p, mode));
        pi = pi + 1;
    }
    // the app variant loses the publications, keeps everything else
    let original_ports = map_remove(&mut svc, "ports");
    let ghost opg = original_ports;
    let ghost m_after_ports = svc@;
    let original_expose = map_remove(&mut svc, "expose");
    let original_container_name = map_remove(&mut svc, "container_name");
    let mut app: Vec<(Yaml, Yaml)> = Vec::new();
    let mut ai: usize = 0;
    while ai < svc.len()
        invariant
            ai <= svc@.len(),
            app@.len() == ai,
            forall|j: int| 0 <= j < ai ==> yeq((#[trigger] app@[j]).0, svc@[j].0) && yeq(
                app@[j].1,
                svc@[j].1,
            ),
        decreases svc@.len() - ai,
    {
        let k = svc[ai].0.duplicate();
        let v = svc[ai].1.duplicate();
        app.push((k, v));
        ai = ai + 1;
    }
    let app_name = {
        let mut n = name.to_owned();
        n.append("-app");
        n
    };
    ensure_expose_ports(&mut app, &ports, original_expose.as_ref());
    add_label(&mut app, "sanelens.app", "true");
    add_label(&mut app, "sanelens.app.name", name);
    add_run_labels(&mut app, name, labels);
    if enable_egress {
        apply_egress_env(&mut app, no_proxy_value);
    }
    // the proxy takes the original name, image, publications and networks
    let mut proxy: Vec<(Yaml, Yaml)> = Vec::new();
    let imgv = Yaml::Str(envoy_image.to_owned());
    let ghost imgg = imgv;
    let ghost p0 = proxy@;
    map_put(&mut proxy, "image", imgv);
    proof {
        lemma_map_put_effect(p0, proxy@, "image"@, imgg);
    }
    let ghost image_binding = map_get(proxy@, "image"@);
    if disable_pods {
        add_envoy_entrypoint(&mut proxy);
        proof {
            lemma_keys_distinct();
            assert(map_get(proxy@, "image"@) == image_binding);
        }
    }
    match map_get_ref(&svc, "restart") {
        Some(v) => {
            let d = v.duplicate();
            let ghost dg = d;
            let ghost before = proxy@;
            map_put(&mut proxy, "restart", d);
            proof {
                lemma_map_put_effect(before, proxy@, "restart"@, dg);
                lemma_keys_distinct();
                reveal_strlit("image");
                reveal_strlit("restart");
                assert("image"@.len() == 5 && "restart"@.len() == 7);
                assert(map_get(proxy@, "image"@) == image_binding);
            }
        },
        None => {},
    }
    match map_get_ref(&svc, "networks") {
        Some(v) => {
            let d = v.duplicate();
            let ghost dg = d;
            let ghost before = proxy@;
            map_put(&mut proxy, "networks", d);
            proof {
                lemma_map_put_effect(before, proxy@, "networks"@, dg);
                lemma_keys_distinct();
                assert(map_get(proxy@, "image"@) == image_binding);
            }
        },
        None => {},
    }
    let depends = build_proxy_depends_on(app_name.as_str());
    let ghost depg = depends;
    let ghost before_dep = proxy@;
    map_put(&mut proxy, "depends_on", depends);
    proof {
        lemma_map_put_effect(before_dep, proxy@, "depends_on"@, depg);
        lemma_keys_distinct();
        assert(map_get(proxy@, "image"@) == image_binding);
    }
    let ghost depends_binding = map_get(proxy@, "depends_on"@);
    let ghost before_ports = proxy@;
    match original_ports {
        Some(pv) => {
            let ghost pvg = pv;
            map_put(&mut proxy, "ports", pv);
            proof {
                lemma_map_put_effect(before_ports, proxy@, "ports"@, pvg);
                lemma_keys_distinct();
                assert(map_get(proxy@, "image"@) == image_binding);
                assert(map_get(proxy@, "depends_on"@) == depends_binding);
            }
        },
        None => {},
    }
    let ghost after_ports = proxy@;
    let ghost ports_binding = map_get(after_ports, "ports"@);
    proof {
        match opg {
            Some(pv0) => {
                assert(ports_binding == Some(pv0));
            },
            None => {},
        }
    }
    match original_container_name {
        Some(cn) => {
            let ghost before = proxy@;
            let ghost cng = cn;
            map_put(&mut proxy, "container_name", cn);
            proof {
                lemma_map_put_effect(before, proxy@, "container_name"@, cng);
                lemma_keys_distinct();
                assert(map_get(proxy@, "image"@) == image_binding);
                assert(map_get(proxy@, "depends_on"@) == depends_binding);
            }
        },
        None => {},
    }
    proof {
        lemma_keys_distinct();
        assert(map_get(proxy@, "ports"@) == ports_binding);
        assert(map_get(proxy@, "image"@) == image_binding);
        assert(map_get(proxy@, "depends_on"@) == depends_binding);
    }
    {
        let ghost before = proxy@;
        let expose_value = build_expose_value(&ports, original_expose.as_ref());
        match expose_value {
            Some(ev) => {
                let ghost evg = ev;
                map_put(&mut proxy, "expose", ev);
                proof {
                    lemma_map_put_effect(before, proxy@, "expose"@, evg);
                    lemma_keys_distinct();
                    assert(map_get(proxy@, "image"@) == image_binding);
                    assert(map_get(proxy@, "depends_on"@) == depends_binding);
                }
            },
            None => {},
        }
    }
    {
        let ghost before = proxy@;
        let mut volumes: Vec<Yaml> = Vec::new();
        let mut mount = config_mount.to_owned();
        mount.append(":/etc/envoy/envoy.yaml:ro");
        volumes.push(Yaml::Str(mount));
        let mut tap = tap_mount.to_owned();
        tap.append(":/sanelens/tap");
        volumes.push(Yaml::Str(tap));
        let ghost vg = Yaml::Sequence(volumes);
        map_put(&mut proxy, "volumes", Yaml::Sequence(volumes));
        proof {
            lemma_map_put_effect(before, proxy@, "volumes"@, vg);
            lemma_keys_distinct();
            assert(map_get(proxy@, "image"@) == image_binding);
            assert(map_get(proxy@, "depends_on"@) == depends_binding);
        }
    }
    proof {
        lemma_keys_distinct();
        assert(map_get(proxy@, "ports"@) == ports_binding);
        assert(map_get(proxy@, "image"@) == image_binding);
        assert(map_get(proxy@, "depends_on"@) == depends_binding);
    }
    add_label(&mut proxy, "sanelens.proxy", "true");
    proof {
        lemma_keys_distinct();
        assert(map_get(proxy@, "ports"@) == ports_binding);
        assert(map_get(proxy@, "image"@) == image_binding);
        assert(map_get(proxy@, "depends_on"@) == depends_binding);
    }
    add_label(&mut proxy, "sanelens.proxy.name", name);
    proof {
        lemma_keys_distinct();
        assert(map_get(proxy@, "ports"@) == ports_binding);
        assert(map_get(proxy@, "image"@) == image_binding);
        assert(map_get(proxy@, "depends_on"@) == depends_binding);
    }
    add_run_labels(&mut proxy, name, labels);
    proof {
        lemma_keys_distinct();
        assert(map_get(proxy@, "ports"@) == ports_binding);
        assert(map_get(proxy@, "image"@) == image_binding);
        assert(map_get(proxy@, "depends_on"@) == depends_binding);
    }
    proof {
        // the ports value moved to the proxy is the duplicate's, equivalent
        // to the original's
        lemma_map_get_find(svc0, "ports"@);
        lemma_find_key(svc0, "ports"@);
        match orig {
            Yaml::Mapping(om) => {
                match map_get(om@, "ports"@) {
                    Some(opv) => {
                        assert(map_get(svc0, "ports"@) matches Some(dpv) && yeq(dpv, opv));
                        assert(find_key(svc0, "ports"@) >= 0);
                        assert(opg == Some(svc0[find_key(svc0, "ports"@)].1));
                        assert(map_get(proxy@, "ports"@) == ports_binding);
                        assert(ports_binding == Some(opg->Some_0));
                        assert(yeq(opg->Some_0, opv));
                    },
                    None => {},
                }
                // the original service is proxied: it is a mapping, avoids
                // host and none networking, publishes a port, and has no
                // opt-out override
                assert(spec_proxied(*orig)) by {
                    assert(!(match map_get(om@, "network_mode"@) {
                        Some(Yaml::Str(s)) => s@ == "host"@ || s@ == "none"@,
                        _ => false,
                    })) by {
                        match (map_get(svc0, "network_mode"@), map_get(om@, "network_mode"@)) {
                            (Some(a), Some(b)) => {
                                assert(yeq(a, b));
                                match (a, b) {
                                    (Yaml::Str(x), Yaml::Str(y)) => {
                                        assert(x@ == y@);
                                    },
                                    _ => {},
                                }
                            },
                            _ => {},
                        }
                    }
                    assert(exists|p: u16| ports_member(om@, p)) by {
                        assert(ports_member(om@, ports@[0]));
                    }
                    assert(spec_proxy_override(om@) != Some("off"@));
                }
            },
            _ => {},
        }
    }
    ServiceOutput::Proxied { proxy, app, modes }
}

/// Every service value in a mapping carries the run id label.
pub open spec fn all_run_labeled(m: Seq<(Yaml, Yaml)>, run_id: Seq<char>) -> bool {
    forall|i: int|
        0 <= i < m.len() ==> ((#[trigger] m[i]).1 matches Yaml::Mapping(_) ==> svc_has_label(
            m[i].1,
            "sanelens.run.id"@,
            run_id,
        ))
}

/// Whether the named service of the input mapping is one derivation splits.
pub open spec fn proxied_in(services: Seq<(Yaml, Yaml)>, name: Seq<char>) -> bool {
    match map_get(services, name) {
        Some(orig) => spec_proxied(orig),
        None => false,
    }
}

/// At `idx` the derived mapping holds the proxy under the original name —
/// marked as a proxy and owning the original port publications — and at
/// `idx + 1` the app variant under `<name>-app`.
pub open spec fn proxied_pair_at(
    out: Seq<(Yaml, Yaml)>,
    idx: int,
    name: Seq<char>,
    orig: Yaml,
) -> bool {
    &&& 0 <= idx
    &&& idx + 1 < out.len()
    &&& is_str_key(out[idx], name)
    &&& is_str_key(out[idx + 1], name + "-app"@)
    &&& svc_has_label(out[idx].1, "sanelens.proxy"@, "true"@)
    &&& out[idx].1 matches Yaml::Mapping(_)
    &&& out[idx + 1].1 matches Yaml::Mapping(_)
    &&& (match orig {
        Yaml::Mapping(om) => match map_get(om@, "ports"@) {
            Some(pv) => match out[idx].1 {
                Yaml::Mapping(pm) => map_get(pm@, "ports"@) matches Some(pv2) && yeq(pv2, pv),
                _ => false,
            },
            None => true,
        },
        _ => false,
    })
}

/// Pushing a fully labeled service keeps the mapping core-labeled.
proof fn lemma_core_labeled_push(
    m: Seq<(Yaml, Yaml)>,
    e: (Yaml, Yaml),
    run_id: Seq<char>,
    compose_file: Seq<char>,
    derived: Seq<char>,
    project: Seq<char>,
)
    requires
        all_core_labeled(m, run_id, compose_file, derived, project),
        e.1 matches Yaml::Mapping(_) ==> (svc_has_label(e.1, "sanelens.run.id"@, run_id)
            && svc_has_label(e.1, "sanelens.compose.file"@, compose_file) && svc_has_label(
            e.1,
            "sanelens.compose.derived"@,
            derived,
        ) && svc_has_label(e.1, "sanelens.project.name"@, project)),
    ensures
        all_core_labeled(m.push(e), run_id, compose_file, derived, project),
{
    assert forall|i: int|
        0 <= i < m.push(e).len() implies ((#[trigger] m.push(e)[i]).1 matches Yaml::Mapping(_)
        ==> (svc_has_label(m.push(e)[i].1, "sanelens.run.id"@, run_id) && svc_has_label(
        m.push(e)[i].1,
        "sanelens.compose.file"@,
        compose_file,
    ) && svc_has_label(m.push(e)[i].1, "sanelens.compose.derived"@, derived) && svc_has_label(
        m.push(e)[i].1,
        "sanelens.project.name"@,
        project,
    ))) by {
        if i < m.len() {
            assert(m.push(e)[i] == m[i]);
        } else {
            assert(m.push(e)[i] == e);
        }
    }
}

/// The update kept the entry's `ports` and `labels` bindings and its
/// mapping shape (a non-mapping value is unchanged).
pub open spec fn svc_keeps_core(b: Yaml, a: Yaml) -> bool {
    match b {
        Yaml::Mapping(mb) => match a {
            Yaml::Mapping(ma) => map_get(ma@, "ports"@) == map_get(mb@, "ports"@) && map_get(
                ma@,
                "labels"@,
            ) == map_get(mb@, "labels"@),
            _ => false,
        },
        _ => a == b,
    }
}

/// A pointwise core-keeping update of the services preserves a proxy/app
/// pair.
proof fn lemma_pair_kept(
    ns0: Seq<(Yaml, Yaml)>,
    ns1: Seq<(Yaml, Yaml)>,
    idx: int,
    name: Seq<char>,
    orig: Yaml,
)
    requires
        proxied_pair_at(ns0, idx, name, orig),
        ns1.len() == ns0.len(),
        forall|j: int| 0 <= j < ns0.len() ==> (#[trigger] ns1[j]).0 == ns0[j].0,
        forall|j: int| 0 <= j < ns0.len() ==> svc_keeps_core((#[trigger] ns0[j]).1, ns1[j].1),
    ensures
        proxied_pair_at(ns1, idx, name, orig),
{
    assert(svc_keeps_core(ns0[idx].1, ns1[idx].1));
    assert(svc_keeps_core(ns0[idx + 1].1, ns1[idx + 1].1));
}

/// Stamping the started-at label preserves a proxy/app pair: the keys, the
/// mapping shapes, the proxy label and the `ports` binding all survive the
/// labels append.
proof fn lemma_pair_stamped(
    before: Seq<(Yaml, Yaml)>,
    after: Seq<(Yaml, Yaml)>,
    t: Seq<char>,
    idx: int,
    name: Seq<char>,
    orig: Yaml,
)
    requires
        stamped_services(before, after, t),
        proxied_pair_at(before, idx, name, orig),
    ensures
        proxied_pair_at(after, idx, name, orig),
{
    lemma_stamp_preserves(before, after, t);
    assert(stamped_service(before[idx].1, after[idx].1, t));
    match before[idx].1 {
        Yaml::Mapping(mb) => match after[idx].1 {
            Yaml::Mapping(ma) => {
                let li = find_key(mb@, "labels"@);
                if li >= 0 && (mb@[li].1 matches Yaml::Sequence(_)) {
                    assert(forall|j: int| 0 <= j < mb@.len() ==> (#[trigger] ma@[j]).0 == mb@[j].0)
                        by {
                        assert(forall|j: int|
                            0 <= j < mb@.len() && j != li ==> #[trigger] ma@[j] == mb@[j]);
                    }
                    lemma_find_key_congruent(ma@, mb@, "ports"@);
                    lemma_map_get_find(ma@, "ports"@);
                    lemma_map_get_find(mb@, "ports"@);
                    lemma_find_key(mb@, "ports"@);
                    lemma_find_key(mb@, "labels"@);
                    let pi = find_key(mb@, "ports"@);
                    if pi >= 0 {
                        assert(pi != li) by {
                            lemma_keys_distinct();
                            assert(is_str_key(mb@[pi], "ports"@));
                            assert(is_str_key(mb@[li], "labels"@));
                        }
                        assert(ma@[pi] == mb@[pi]);
                    }
                    assert(map_get(ma@, "ports"@) == map_get(mb@, "ports"@));
                } else {
                    assert(unstamped_equal(before[idx].1, after[idx].1));
                }
            },
            _ => {},
        },
        _ => {},
    }
}

/// Builds the derived services mapping: every named service appears under
/// its own name; a proxied one also under `<name>-app`, with its port
/// publications moved to the proxy; every service mapping carries the
/// run-wide labels; and the proxy, alias and sidecar-configuration lists
/// line up, one row per proxied service.
#[verifier::rlimit(100)]
#[verifier::loop_isolation(false)]
pub fn build_derived_services(
    services: &Vec<(Yaml, Yaml)>,
    names: &Vec<String>,
    labels: &RunLabels,
    envoy_image: &str,
    enable_egress: bool,
    no_proxy_value: &str,
    disable_pods: bool,
    envoy_dir: &str,
    tap_dir: &str,
) -> (r: (Vec<(Yaml, Yaml)>, Vec<String>, Vec<(String, String)>, Vec<(String, String)>))
    ensures
        all_run_labeled(r.0@, labels.run_id@),
        all_core_labeled(
            r.0@,
            labels.run_id@,
            labels.compose_file@,
            labels.derived_compose@,
            labels.project_name@,
        ),
        forall|j: int|
            0 <= j < names@.len() ==> map_has(r.0@, (#[trigger] names@[j])@) && (match map_get(
                services@,
                names@[j]@,
            ) {
                Some(orig) => spec_proxied(orig) ==> map_has(r.0@, names@[j]@ + "-app"@) && (
                exists|idx: int| proxied_pair_at(r.0@, idx, names@[j]@, orig)),
                None => true,
            }),
        r.2@.len() == r.1@.len(),
        r.3@.len() == r.1@.len(),
        forall|t: int|
            0 <= t < r.1@.len() ==> (#[trigger] r.2@[t]).0@ == r.1@[t]@ && r.2@[t].1@ == r.1@[t]@
                + "-app"@,
        forall|t: int| 0 <= t < r.1@.len() ==> (#[trigger] r.3@[t]).0@ == r.1@[t]@,
        forall|t: int|
            0 <= t < r.1@.len() ==> proxied_in(services@, (#[trigger] r.1@[t])@),
        forall|j: int|
            0 <= j < names@.len() && proxied_in(services@, (#[trigger] names@[j])@)
                ==> crate::compose::contains_view(r.1@, names@[j]@),
{
    let mut out: Vec<(Yaml, Yaml)> = Vec::new();
    let mut proxies: Vec<String> = Vec::new();
    let mut app_map: Vec<(String, String)> = Vec::new();
    let mut configs: Vec<(String, String)> = Vec::new();
    let mut i: usize = 0;
    while i < names.len()
        invariant
            i <= names@.len(),
            all_run_labeled(out@, labels.run_id@),
            all_core_labeled(
                out@,
                labels.run_id@,
                labels.compose_file@,
                labels.derived_compose@,
                labels.project_name@,
            ),
            forall|j: int|
                0 <= j < i ==> map_has(out@, (#[trigger] names@[j])@) && (match map_get(
                    services@,
                    names@[j]@,
                ) {
                    Some(orig) => spec_proxied(orig) ==> map_has(out@, names@[j]@ + "-app"@) && (
                    exists|idx: int| proxied_pair_at(out@, idx, names@[j]@, orig)),
                    None => true,
                }),
            app_map@.len() == proxies@.len(),
            configs@.len() == proxies@.len(),
            forall|t: int|
                0 <= t < proxies@.len() ==> (#[trigger] app_map@[t]).0@ == proxies@[t]@
                    && app_map@[t].1@ == proxies@[t]@ + "-app"@,
            forall|t: int| 0 <= t < proxies@.len() ==> (#[trigger] configs@[t]).0@ == proxies@[t]@,
            forall|t: int|
                0 <= t < proxies@.len() ==> proxied_in(services@, (#[trigger] proxies@[t])@),
            forall|j: int|
                0 <= j < i && proxied_in(services@, (#[trigger] names@[j])@)
                    ==> crate::compose::contains_view(proxies@, names@[j]@),
        decreases names@.len() - i,
    {
        let name = &names[i];
        let orig_ref = map_get_ref(services, name.as_str());
        let orig: Yaml = match orig_ref {
            Some(v) => v.duplicate(),
            None => Yaml::Null,
        };
        proof {
            match map_get(services@, names@[i as int]@) {
                Some(ov) => {
                    lemma_proxied_equiv(ov, orig);
                },
                None => {},
            }
        }
        let config_mount = {
            let mut p = envoy_dir.to_owned();
            p.append("/");
            p.append(name.as_str());
            p.append(".yaml");
            p
        };
        let tap_mount = {
            let mut p = tap_dir.to_owned();
            p.append("/");
            p.append(name.as_str());
            p
        };
        let outcome = derive_one_service(
            name.as_str(),
            &orig,
            labels,
            envoy_image,
            enable_egress,
            no_proxy_value,
            disable_pods,
            config_mount.as_str(),
            tap_mount.as_str(),
        );
        let ghost out0 = out@;
        match outcome {
            ServiceOutput::Plain(v) => {
                let ghost vg = v;
                out.push((Yaml::Str(name.clone()), v));
                proof {
                    assert(out@ =~= out0.push((out@.last().0, vg)));
                    assert(is_str_key(out@.last(), names@[i as int]@));
                    lemma_find_key_push(out0, out@.last(), names@[i as int]@);
                    lemma_all_labeled_push(out0, out@.last(), labels.run_id@);
                    lemma_core_labeled_push(
                        out0,
                        out@.last(),
                        labels.run_id@,
                        labels.compose_file@,
                        labels.derived_compose@,
                        labels.project_name@,
                    );
                    assert forall|j: int| 0 <= j < i + 1 implies map_has(
                        out@,
                        (#[trigger] names@[j])@,
                    ) && (match map_get(services@, names@[j]@) {
                        Some(orig2) => spec_proxied(orig2) ==> map_has(out@, names@[j]@ + "-app"@)
                            && (exists|idx: int| proxied_pair_at(out@, idx, names@[j]@, orig2)),
                        None => true,
                    }) by {
                        if j < i {
                            lemma_find_key_push(out0, out@.last(), names@[j]@);
                            lemma_find_key_push(out0, out@.last(), names@[j]@ + "-app"@);
                            match map_get(services@, names@[j]@) {
                                Some(orig2) => {
                                    if spec_proxied(orig2) {
                                        let idx = choose|idx: int|
                                            proxied_pair_at(out0, idx, names@[j]@, orig2);
                                        assert(out@[idx] == out0[idx]);
                                        assert(out@[idx + 1] == out0[idx + 1]);
                                        assert(proxied_pair_at(out@, idx, names@[j]@, orig2));
                                    }
                                },
                                None => {},
                            }
                        }
                    }
                }
            },
            ServiceOutput::Proxied { proxy, app, modes } => {
                let app_name = {
                    let mut n = name.clone();
                    n.append("-app");
                    n
                };
                let body = crate::envoy::render_envoy_config(
                    name.as_str(),
                    app_name.as_str(),
                    &modes,
                );
                configs.push((name.clone(), body));
                let ghost proxies_pre = proxies@;
                proxies.push(name.clone());
                app_map.push((name.clone(), app_name.clone()));
                let ghost proxyg = Yaml::Mapping(proxy);
                out.push((Yaml::Str(name.clone()), Yaml::Mapping(proxy)));
                let ghost out1 = out@;
                let ghost appg = Yaml::Mapping(app);
                out.push((Yaml::Str(app_name.clone()), Yaml::Mapping(app)));
                proof {
                    assert(out1 =~= out0.push(out1.last()));
                    assert(out@ =~= out1.push(out@.last()));
                    assert(is_str_key(out1.last(), names@[i as int]@));
                    assert(is_str_key(out@.last(), names@[i as int]@ + "-app"@));
                    lemma_find_key_push(out0, out1.last(), names@[i as int]@);
                    lemma_find_key_push(out1, out@.last(), names@[i as int]@);
                    lemma_find_key_push(out1, out@.last(), names@[i as int]@ + "-app"@);
                    lemma_all_labeled_push(out0, out1.last(), labels.run_id@);
                    lemma_all_labeled_push(out1, out@.last(), labels.run_id@);
                    lemma_core_labeled_push(
                        out0,
                        out1.last(),
                        labels.run_id@,
                        labels.compose_file@,
                        labels.derived_compose@,
                        labels.project_name@,
                    );
                    lemma_core_labeled_push(
                        out1,
                        out@.last(),
                        labels.run_id@,
                        labels.compose_file@,
                        labels.derived_compose@,
                        labels.project_name@,
                    );
                    let ghost idx0 = out0.len() as int;
                    match map_get(services@, names@[i as int]@) {
                        Some(ov) => {
                            if spec_proxied(ov) {
                                assert(out@[idx0] == out1[idx0]);
                                assert(out1[idx0] == out1.last());
                                assert(out@[idx0 + 1] == out@.last());
                                match (ov, orig) {
                                    (Yaml::Mapping(ovm), Yaml::Mapping(dm)) => {
                                        assert(entries_equiv(dm@, ovm@));
                                        lemma_equiv_map_get(dm@, ovm@, "ports"@);
                                        match map_get(ovm@, "ports"@) {
                                            Some(pvo) => {
                                                let pvd = map_get(dm@, "ports"@)->Some_0;
                                                match proxyg {
                                                    Yaml::Mapping(pm) => {
                                                        let pv2 = map_get(
                                                            pm@,
                                                            "ports"@,
                                                        )->Some_0;
                                                        lemma_yeq_trans(pv2, pvd, pvo);
                                                    },
                                                    _ => {},
                                                }
                                            },
                                            None => {},
                                        }
                                    },
                                    _ => {},
                                }
                                assert(proxied_pair_at(out@, idx0, names@[i as int]@, ov));
                            }
                        },
                        None => {},
                    }
                    assert forall|j: int| 0 <= j < i + 1 implies map_has(
                        out@,
                        (#[trigger] names@[j])@,
                    ) && (match map_get(services@, names@[j]@) {
                        Some(orig2) => spec_proxied(orig2) ==> map_has(out@, names@[j]@ + "-app"@)
                            && (exists|idx: int| proxied_pair_at(out@, idx, names@[j]@, orig2)),
                        None => true,
                    }) by {
                        if j < i {
                            lemma_find_key_push(out0, out1.last(), names@[j]@);
                            lemma_find_key_push(out1, out@.last(), names@[j]@);
                            lemma_find_key_push(out0, out1.last(), names@[j]@ + "-app"@);
                            lemma_find_key_push(out1, out@.last(), names@[j]@ + "-app"@);
                            match map_get(services@, names@[j]@) {
                                Some(orig2) => {
                                    if spec_proxied(orig2) {
                                        let idx = choose|idx: int|
                                            proxied_pair_at(out0, idx, names@[j]@, orig2);
                                        assert(out@[idx] == out0[idx]);
                                        assert(out@[idx + 1] == out0[idx + 1]);
                                        assert(proxied_pair_at(out@, idx, names@[j]@, orig2));
                                    }
                                },
                                None => {},
                            }
                        }
                    }
                    assert forall|j: int|
                        0 <= j < i + 1 && proxied_in(
                            services@,
                            (#[trigger] names@[j])@,
                        ) implies crate::compose::contains_view(proxies@, names@[j]@) by {
                        if j < i {
                            let t = choose|t: int|
                                0 <= t < proxies_pre.len() && (#[trigger] proxies_pre[t])@
                                    == names@[j]@;
                            assert(proxies@[t] == proxies_pre[t]);
                        } else {
                            assert(proxies@[proxies@.len() - 1]@ == names@[j]@);
                        }
                    }
                }
            },
        }
        i = i + 1;
    }
    (out, proxies, app_map, configs)
}

/// Pushing a labeled service keeps the whole mapping labeled.
proof fn lemma_all_labeled_push(m: Seq<(Yaml, Yaml)>, e: (Yaml, Yaml), run_id: Seq<char>)
    requires
        all_run_labeled(m, run_id),
        e.1 matches Yaml::Mapping(_) ==> svc_has_label(e.1, "sanelens.run.id"@, run_id),
    ensures
        all_run_labeled(m.push(e), run_id),
{
    assert forall|i: int|
        0 <= i < m.push(e).len() implies ((#[trigger] m.push(e)[i]).1 matches Yaml::Mapping(_)
        ==> svc_has_label(m.push(e)[i].1, "sanelens.run.id"@, run_id)) by {
        if i < m.len() {
            assert(m.push(e)[i] == m[i]);
        } else {
            assert(m.push(e)[i] == e);
        }
    }
}

/// Stamping keeps every label a service already carries, its keys, and the
/// mapping shape.
pub proof fn lemma_stamp_preserves(before: Seq<(Yaml, Yaml)>, after: Seq<(Yaml, Yaml)>, t: Seq<char>)
    requires
        stamped_services(before, after, t),
    ensures
        after.len() == before.len(),
        forall|i: int| 0 <= i < before.len() ==> (#[trigger] after[i]).0 == before[i].0,
        forall|k: Seq<char>| #[trigger] map_has(after, k) == map_has(before, k),
        forall|i: int, k: Seq<char>, v: Seq<char>|
            0 <= i < before.len() && #[trigger] svc_has_label(before[i].1, k, v)
                ==> svc_has_label(after[i].1, k, v),
        forall|i: int|
            0 <= i < before.len() ==> ((#[trigger] before[i]).1 matches Yaml::Mapping(_) <==> after[
                i].1 matches Yaml::Mapping(_)),
{
    assert forall|k: Seq<char>| #[trigger] map_has(after, k) == map_has(before, k) by {
        lemma_find_key_congruent(after, before, k);
    }
    assert forall|i: int, k: Seq<char>, v: Seq<char>|
        0 <= i < before.len() && #[trigger] svc_has_label(before[i].1, k, v) implies svc_has_label(
        after[i].1,
        k,
        v,
    ) by {
        match before[i].1 {
            Yaml::Mapping(m) => {
                let idx = find_key(m@, "labels"@);
                if idx >= 0 && (m@[idx].1 matches Yaml::Sequence(_)) {
                    match (after[i].1, m@[idx].1) {
                        (Yaml::Mapping(m2), Yaml::Sequence(l)) => {
                            lemma_find_key_congruent(m2@, m@, "labels"@);
                            lemma_map_get_find(m@, "labels"@);
                            lemma_map_get_find(m2@, "labels"@);
                            match (map_get(m@, "labels"@), map_get(m2@, "labels"@)) {
                                (Some(Yaml::Sequence(lb)), Some(Yaml::Sequence(la))) => {
                                    let w = choose|w: int|
                                        0 <= w < lb@.len() && line_is(
                                            #[trigger] lb@[w],
                                            label_line(k, v),
                                        );
                                    assert(la@[w] == lb@[w]);
                                },
                                _ => {},
                            }
                        },
                        _ => {},
                    }
                }
            },
            _ => {},
        }
    }
    assert forall|i: int|
        0 <= i < before.len() implies ((#[trigger] before[i]).1 matches Yaml::Mapping(_) <==> after[
        i].1 matches Yaml::Mapping(_)) by {
        assert(stamped_service(before[i].1, after[i].1, t));
    }
}

/// Derives the full document. The canonical input, already loaded, is
/// rewritten in place: name set to the project, paths made absolute,
/// services split behind proxies when traffic is on, dependencies moved to
/// the app variants, and every service stamped with the run labels; the
/// started-at stamp is the final pass.
#[verifier::rlimit(100)]
pub fn derive_compose(
    doc: Yaml,
    compose_file: &str,
    compose_dir: &str,
    project_name: &str,
    home: Option<&String>,
    config: &DeriveConfig,
) -> (r: Result<Derivation, String>)
    requires
        crate::paths::is_abs(compose_dir@),
    ensures
        r is Ok <==> (match doc {
            Yaml::Mapping(m0) => map_get(m0@, "services"@) matches Some(Yaml::Mapping(_)),
            _ => false,
        }),
        match r {
            Ok(d) => {
                &&& d.info.run_dir@ == compose_dir@ + "/.sanelens/"@ + project_name@
                &&& d.info.path@ == compose_dir@ + "/.sanelens/"@ + project_name@
                    + "/compose.derived.yaml"@
                &&& (d.info.egress_proxy is Some <==> (config.enable_traffic
                    && config.enable_egress))
                &&& match map_get(d.doc@, "services"@) {
                    Some(Yaml::Mapping(svcs)) => all_run_labeled(svcs@, config.run_id@)
                        && all_core_labeled(
                        svcs@,
                        config.run_id@,
                        compose_file@,
                        d.info.path@,
                        project_name@,
                    ) && exists|pre: Seq<(Yaml, Yaml)>| #[trigger] stamped_services(
                        pre,
                        svcs@,
                        config.run_started_at@,
                    ),
                    _ => false,
                }
                &&& (config.enable_traffic ==> (match doc {
                    Yaml::Mapping(m0) => match map_get(m0@, "services"@) {
                        Some(Yaml::Mapping(insvcs)) => {
                            &&& d.info.app_service_map@.len() == d.info.proxy_services@.len()
                            &&& (forall|t: int|
                                0 <= t < d.info.proxy_services@.len()
                                    ==> (#[trigger] d.info.app_service_map@[t]).0@
                                    == d.info.proxy_services@[t]@ && d.info.app_service_map@[t].1@
                                    == d.info.proxy_services@[t]@ + "-app"@)
                            &&& (forall|t: int|
                                0 <= t < d.info.proxy_services@.len() ==> proxied_in(
                                    insvcs@,
                                    (#[trigger] d.info.proxy_services@[t])@,
                                ))
                            &&& d.envoy_configs@.len() == d.info.proxy_services@.len() + (
                            if config.enable_egress {
                                1int
                            } else {
                                0int
                            })
                            &&& d.tap_services@.len() == d.info.proxy_services@.len() + (
                            if config.enable_egress {
                                1int
                            } else {
                                0int
                            })
                            &&& (match map_get(d.doc@, "services"@) {
                                Some(Yaml::Mapping(svcs)) => forall|ki: int|
                                    0 <= ki < insvcs@.len() ==> (match (#[trigger] insvcs@[ki]).0 {
                                        Yaml::Str(k) => proxied_in(insvcs@, k@)
                                            ==> crate::compose::contains_view(
                                            d.info.proxy_services@,
                                            k@,
                                        ) && (exists|idx: int|
                                            proxied_pair_at(
                                                svcs@,
                                                idx,
                                                k@,
                                                map_get(insvcs@, k@)->Some_0,
                                            )),
                                        _ => true,
                                    }),
                                _ => false,
                            })
                        },
                        _ => false,
                    },
                    _ => false,
                }))
            },
            Err(_) => true,
        },
{
    let mut entries: Vec<(Yaml, Yaml)> = match doc {
        Yaml::Mapping(m) => m,
        other => {
            return Err("compose document is not a mapping".to_owned());
        },
    };
    let ghost e_in = entries@;
    set_compose_name(&mut entries, project_name);
    rewrite_top_level_paths(&mut entries, compose_dir, home);
    if config.disable_pods {
        disable_podman_pods(&mut entries);
    }
    proof {
        lemma_keys_distinct();
        assert(map_get(entries@, "services"@) == map_get(e_in, "services"@));
    }
    let run_dir = {
        let mut p = compose_dir.to_owned();
        p.append("/.sanelens/");
        p.append(project_name);
        p
    };
    let derived_path = {
        let mut p = run_dir.clone();
        p.append("/compose.derived.yaml");
        p
    };
    let envoy_dir = {
        let mut p = run_dir.clone();
        p.append("/envoy");
        p
    };
    let tap_dir = {
        let mut p = run_dir.clone();
        p.append("/tap");
        p
    };
    let labels = RunLabels {
        run_id: config.run_id.clone(),
        compose_file: compose_file.to_owned(),
        derived_compose: derived_path.clone(),
        project_name: project_name.to_owned(),
    };
    let names = match collect_service_names(&entries) {
        Ok(n) => n,
        Err(e) => {
            return Err(e);
        },
    };
    if !config.enable_traffic {
        // label stamping and path normalization only
        let ghost e0 = entries@;
        let taken = map_remove(&mut entries, "services");
        let ghost e1 = entries@;
        proof {
            lemma_find_key(e0, "services"@);
            lemma_map_get_find(e0, "services"@);
        }
        let mut svcs: Vec<(Yaml, Yaml)> = match taken {
            Some(Yaml::Mapping(m)) => m,
            _ => {
                return Err("compose file missing services".to_owned());
            },
        };
        let mut i: usize = 0;
        while i < svcs.len()
            invariant
                i <= svcs@.len(),
                all_run_labeled(svcs@.subrange(0, i as int), labels.run_id@),
                all_core_labeled(
                    svcs@.subrange(0, i as int),
                    labels.run_id@,
                    labels.compose_file@,
                    labels.derived_compose@,
                    labels.project_name@,
                ),
                labels.run_id@ == config.run_id@,
                crate::paths::is_abs(compose_dir@),
            decreases svcs@.len() - i,
        {
            let entry = svcs.remove(i);
            let k = entry.0;
            let updated: Yaml = match entry.1 {
                Yaml::Mapping(mut m) => {
                    rewrite_service_paths(&mut m, compose_dir, home);
                    match &k {
                        Yaml::Str(sname) => {
                            add_run_labels(&mut m, sname.as_str(), &labels);
                        },
                        _ => {
                            add_run_labels(&mut m, "", &labels);
                        },
                    }
                    Yaml::Mapping(m)
                },
                other => other,
            };
            proof {
                assert(updated matches Yaml::Mapping(_) ==> svc_has_label(
                    updated,
                    "sanelens.run.id"@,
                    labels.run_id@,
                ) && svc_has_label(updated, "sanelens.compose.file"@, labels.compose_file@)
                    && svc_has_label(updated, "sanelens.compose.derived"@, labels.derived_compose@)
                    && svc_has_label(updated, "sanelens.project.name"@, labels.project_name@));
            }
            svcs.insert(i, (k, updated));
            i = i + 1;
            proof {
                assert(forall|j: int|
                    0 <= j < i - 1 ==> svcs@.subrange(0, i as int)[j] == #[trigger] svcs@.subrange(
                        0,
                        i - 1,
                    )[j]);
                assert(svcs@.subrange(0, i as int)[i - 1] == svcs@[i - 1]);
                assert(all_run_labeled(svcs@.subrange(0, i as int), labels.run_id@));
                assert(all_core_labeled(
                    svcs@.subrange(0, i as int),
                    labels.run_id@,
                    labels.compose_file@,
                    labels.derived_compose@,
                    labels.project_name@,
                ));
            }
        }
        proof {
            assert(svcs@.subrange(0, svcs@.len() as int) =~= svcs@);
        }
        let ghost prestamp = svcs@;
        stamp_started_at(&mut svcs, config.run_started_at.as_str());
        proof {
            lemma_stamp_preserves(prestamp, svcs@, config.run_started_at@);
        }
        let svcs_value = Yaml::Mapping(svcs);
        let ghost svg = svcs_value;
        map_put(&mut entries, "services", svcs_value);
        proof {
            lemma_map_put_effect(e1, entries@, "services"@, svg);
        }
        return Ok(
            Derivation {
                doc: entries,
                envoy_configs: Vec::new(),
                tap_services: Vec::new(),
                info: DerivedCompose {
                    path: derived_path,
                    run_dir,
                    proxy_services: Vec::new(),
                    app_service_map: Vec::new(),
                    egress_proxy: None,
                },
            },
        );
    }
    // traffic on: derive proxies
    let network_names = collect_network_names(&entries);
    let mut no_proxy = String::new();
    let mut ni: usize = 0;
    while ni < names.len()
        decreases names@.len() - ni,
    {
        no_proxy.append(names[ni].as_str());
        no_proxy.append(",");
        ni = ni + 1;
    }
    no_proxy.append("localhost,127.0.0.1");
    let ghost e0 = entries@;
    let taken = map_remove(&mut entries, "services");
    let ghost e1 = entries@;
    proof {
        lemma_find_key(e0, "services"@);
        lemma_map_get_find(e0, "services"@);
    }
    let services_in: Vec<(Yaml, Yaml)> = match taken {
        Some(Yaml::Mapping(m)) => m,
        _ => {
            return Err("compose file missing services".to_owned());
        },
    };
    let (mut new_services, proxies, app_map, configs) = build_derived_services(
        &services_in,
        &names,
        &labels,
        config.envoy_image.as_str(),
        config.enable_egress,
        no_proxy.as_str(),
        config.disable_pods,
        envoy_dir.as_str(),
        tap_dir.as_str(),
    );
    let mut tap_services: Vec<String> = Vec::new();
    let mut ti: usize = 0;
    while ti < proxies.len()
        invariant
            ti <= proxies@.len(),
            tap_services@.len() == ti,
        decreases proxies@.len() - ti,
    {
        tap_services.push(proxies[ti].clone());
        ti = ti + 1;
    }
    let mut all_configs = configs;
    let egress_proxy: Option<String> = if config.enable_egress {
        let egress_name = "sanelens-egress-proxy".to_owned();
        let mut egress: Vec<(Yaml, Yaml)> = Vec::new();
        map_put(&mut egress, "image", Yaml::Str(config.envoy_image.clone()));
        if config.disable_pods {
            add_envoy_entrypoint(&mut egress);
        }
        {
            let mut volumes: Vec<Yaml> = Vec::new();
            let mut mount = envoy_dir.clone();
            mount.append("/egress.yaml:/etc/envoy/envoy.yaml:ro");
            volumes.push(Yaml::Str(mount));
            let mut tap = tap_dir.clone();
            tap.append("/");
            tap.append(egress_name.as_str());
            tap.append(":/sanelens/tap");
            volumes.push(Yaml::Str(tap));
            map_put(&mut egress, "volumes", Yaml::Sequence(volumes));
        }
        if network_names.len() > 0 {
            let mut nets: Vec<Yaml> = Vec::new();
            let mut wi: usize = 0;
            while wi < network_names.len()
                decreases network_names@.len() - wi,
            {
                nets.push(Yaml::Str(network_names[wi].clone()));
                wi = wi + 1;
            }
            map_put(&mut egress, "networks", Yaml::Sequence(nets));
        }
        add_label(&mut egress, "sanelens.proxy", "true");
        add_label(&mut egress, "sanelens.proxy.egress", "true");
        add_run_labels(&mut egress, egress_name.as_str(), &labels);
        all_configs.push((egress_name.clone(), crate::envoy::egress_envoy_config()));
        tap_services.push(egress_name.clone());
        let ghost ns0 = new_services@;
        let ghost eg = Yaml::Mapping(egress);
        new_services.push((Yaml::Str(egress_name.clone()), Yaml::Mapping(egress)));
        proof {
            lemma_all_labeled_push(ns0, new_services@.last(), labels.run_id@);
            lemma_core_labeled_push(
                ns0,
                new_services@.last(),
                labels.run_id@,
                labels.compose_file@,
                labels.derived_compose@,
                labels.project_name@,
            );
            assert forall|j: int|
                0 <= j < names@.len() && proxied_in(
                    services_in@,
                    (#[trigger] names@[j])@,
                ) implies exists|idx: int|
                proxied_pair_at(
                    new_services@,
                    idx,
                    names@[j]@,
                    map_get(services_in@, names@[j]@)->Some_0,
                ) by {
                let orig2 = map_get(services_in@, names@[j]@)->Some_0;
                let idx = choose|idx: int| proxied_pair_at(ns0, idx, names@[j]@, orig2);
                assert(new_services@[idx] == ns0[idx]);
                assert(new_services@[idx + 1] == ns0[idx + 1]);
                assert(proxied_pair_at(new_services@, idx, names@[j]@, orig2));
            }
        }
        Some(egress_name)
    } else {
        None
    };
    proof {
        assert forall|j: int|
            0 <= j < names@.len() && proxied_in(services_in@, (#[trigger] names@[j])@) implies exists|
            idx: int,
        |
            proxied_pair_at(
                new_services@,
                idx,
                names@[j]@,
                map_get(services_in@, names@[j]@)->Some_0,
            ) by {}
    }
    // move healthy-condition dependencies to the app variants
    let mut clean_aliases: bool = true;
    let mut ci: usize = 0;
    while ci < app_map.len()
        invariant
            ci <= app_map@.len(),
            clean_aliases ==> forall|t: int|
                0 <= t < ci ==> alias_get(app_map@, (#[trigger] app_map@[t]).1@) is None,
        decreases app_map@.len() - ci,
    {
        match alias_lookup(&app_map, app_map[ci].1.as_str()) {
            Some(_) => {
                clean_aliases = false;
            },
            None => {},
        }
        ci = ci + 1;
    }
    let ghost ns_base = new_services@;
    if clean_aliases {
        let mut di: usize = 0;
        while di < new_services.len()
            invariant
                di <= new_services@.len(),
                new_services@.len() == ns_base.len(),
                forall|j: int|
                    di <= j < ns_base.len() ==> (#[trigger] new_services@[j]) == ns_base[j],
                forall|j: int| 0 <= j < di ==> (#[trigger] new_services@[j]).0 == ns_base[j].0,
                forall|j: int|
                    0 <= j < di ==> svc_keeps_core((#[trigger] ns_base[j]).1, new_services@[j].1),
                all_run_labeled(new_services@, labels.run_id@),
                labels.run_id@ == config.run_id@,
                forall|t: int|
                    0 <= t < app_map@.len() ==> alias_get(
                        app_map@,
                        (#[trigger] app_map@[t]).1@,
                    ) is None,
            decreases new_services@.len() - di,
        {
            let ghost ns0 = new_services@;
            let entry = new_services.remove(di);
            let ghost v0 = entry.1;
            let k = entry.0;
            let updated: Yaml = match entry.1 {
                Yaml::Mapping(mut m) => {
                    let ghost mb = m@;
                    rewrite_depends_on_for_proxies(&mut m, &app_map);
                    proof {
                        lemma_keys_distinct();
                        assert(map_get(m@, "labels"@) == map_get(mb, "labels"@));
                        assert(map_get(m@, "ports"@) == map_get(mb, "ports"@));
                        assert(svc_has_label(v0, "sanelens.run.id"@, labels.run_id@)
                            ==> svc_has_label(
                            Yaml::Mapping(m),
                            "sanelens.run.id"@,
                            labels.run_id@,
                        ));
                        assert(svc_keeps_core(v0, Yaml::Mapping(m)));
                    }
                    Yaml::Mapping(m)
                },
                other => other,
            };
            proof {
                assert(updated matches Yaml::Mapping(_) ==> svc_has_label(
                    updated,
                    "sanelens.run.id"@,
                    labels.run_id@,
                )) by {
                    assert(v0 matches Yaml::Mapping(_) ==> svc_has_label(
                        v0,
                        "sanelens.run.id"@,
                        labels.run_id@,
                    )) by {
                        assert(ns0[di as int].1 == v0);
                    }
                }
            }
            new_services.insert(di, (k, updated));
            di = di + 1;
            proof {
                assert(all_run_labeled(new_services@, labels.run_id@)) by {
                    assert(forall|j: int|
                        0 <= j < new_services@.len() && j != di - 1
                            ==> (#[trigger] new_services@[j]).1 == ns0[j].1);
                }
                assert(new_services@[di - 1].0 == ns_base[di - 1].0);
                assert(svc_keeps_core(ns_base[di - 1].1, new_services@[di - 1].1)) by {
                    assert(ns_base[di - 1] == ns0[di - 1]);
                    assert(v0 == ns0[di - 1].1);
                }
                assert(forall|j: int|
                    0 <= j < di - 1 ==> (#[trigger] new_services@[j]) == ns0[j]);
            }
        }
    }
    proof {
        assert(new_services@.len() == ns_base.len());
        assert forall|j: int| 0 <= j < ns_base.len() implies ((#[trigger] new_services@[j]).0
            == ns_base[j].0 && svc_keeps_core(ns_base[j].1, new_services@[j].1)) by {
            if new_services@[j] == ns_base[j] {
                assert(svc_keeps_core(ns_base[j].1, new_services@[j].1)) by {
                    match ns_base[j].1 {
                        Yaml::Mapping(_) => {},
                        _ => {},
                    }
                }
            }
        }
        assert forall|j: int|
            0 <= j < names@.len() && proxied_in(services_in@, (#[trigger] names@[j])@) implies exists|
            idx: int,
        |
            proxied_pair_at(
                new_services@,
                idx,
                names@[j]@,
                map_get(services_in@, names@[j]@)->Some_0,
            ) by {
            let orig2 = map_get(services_in@, names@[j]@)->Some_0;
            let idx = choose|idx: int| proxied_pair_at(ns_base, idx, names@[j]@, orig2);
            lemma_pair_kept(ns_base, new_services@, idx, names@[j]@, orig2);
        }
        assert forall|j: int|
            0 <= j < new_services@.len() implies ((#[trigger] new_services@[j]).1
            matches Yaml::Mapping(_) ==> (svc_has_label(
            new_services@[j].1,
            "sanelens.run.id"@,
            labels.run_id@,
        ) && svc_has_label(new_services@[j].1, "sanelens.compose.file"@, labels.compose_file@)
            && svc_has_label(
            new_services@[j].1,
            "sanelens.compose.derived"@,
            labels.derived_compose@,
        ) && svc_has_label(
            new_services@[j].1,
            "sanelens.project.name"@,
            labels.project_name@,
        ))) by {
            assert(svc_keeps_core(ns_base[j].1, new_services@[j].1));
        }
        assert(all_core_labeled(
            new_services@,
            labels.run_id@,
            labels.compose_file@,
            labels.derived_compose@,
            labels.project_name@,
        ));
    }
    let ghost prestamp = new_services@;
    stamp_started_at(&mut new_services, config.run_started_at.as_str());
    proof {
        lemma_stamp_preserves(prestamp, new_services@, config.run_started_at@);
        assert forall|j: int|
            0 <= j < names@.len() && proxied_in(services_in@, (#[trigger] names@[j])@) implies exists|
            idx: int,
        |
            proxied_pair_at(
                new_services@,
                idx,
                names@[j]@,
                map_get(services_in@, names@[j]@)->Some_0,
            ) by {
            let orig2 = map_get(services_in@, names@[j]@)->Some_0;
            let idx = choose|idx: int| proxied_pair_at(prestamp, idx, names@[j]@, orig2);
            lemma_pair_stamped(
                prestamp,
                new_services@,
                config.run_started_at@,
                idx,
                names@[j]@,
                orig2,
            );
        }
        assert forall|j: int|
            0 <= j < new_services@.len() implies ((#[trigger] new_services@[j]).1
            matches Yaml::Mapping(_) ==> (svc_has_label(
            new_services@[j].1,
            "sanelens.run.id"@,
            labels.run_id@,
        ) && svc_has_label(new_services@[j].1, "sanelens.compose.file"@, labels.compose_file@)
            && svc_has_label(
            new_services@[j].1,
            "sanelens.compose.derived"@,
            labels.derived_compose@,
        ) && svc_has_label(
            new_services@[j].1,
            "sanelens.project.name"@,
            labels.project_name@,
        ))) by {
            assert(stamped_service(prestamp[j].1, new_services@[j].1, config.run_started_at@));
        }
        assert(all_core_labeled(
            new_services@,
            labels.run_id@,
            labels.compose_file@,
            labels.derived_compose@,
            labels.project_name@,
        ));
    }
    let ghost final_svcs = new_services@;
    let svcs_value = Yaml::Mapping(new_services);
    let ghost svg = svcs_value;
    map_put(&mut entries, "services", svcs_value);
    proof {
        lemma_map_put_effect(e1, entries@, "services"@, svg);
        assert forall|ki: int| 0 <= ki < services_in@.len() implies (match (#[trigger] services_in@[ki]).0 {
            Yaml::Str(k) => proxied_in(services_in@, k@) ==> crate::compose::contains_view(
                proxies@,
                k@,
            ) && (exists|idx: int|
                proxied_pair_at(final_svcs, idx, k@, map_get(services_in@, k@)->Some_0)),
            _ => true,
        }) by {
            match services_in@[ki].0 {
                Yaml::Str(k) => {
                    if proxied_in(services_in@, k@) {
                        let j = choose|j: int|
                            0 <= j < names@.len() && (#[trigger] names@[j])@ == k@;
                        let orig2 = map_get(services_in@, names@[j]@)->Some_0;
                        let idx = choose|idx: int|
                            proxied_pair_at(final_svcs, idx, names@[j]@, orig2);
                        assert(proxied_pair_at(
                            final_svcs,
                            idx,
                            k@,
                            map_get(services_in@, k@)->Some_0,
                        ));
                        assert(crate::compose::contains_view(proxies@, names@[j]@));
                    }
                },
                _ => {},
            }
        }
    }
    Ok(
        Derivation {
            doc: entries,
            envoy_configs: all_configs,
            tap_services,
            info: DerivedCompose {
                path: derived_path,
                run_dir,
                proxy_services: proxies,
                app_service_map: app_map,
                egress_proxy,
            },
        },
    )
}

} // verus!
