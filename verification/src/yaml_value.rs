//! YAML values as plain data, and the deep merge of configuration documents.
use vstd::prelude::*;
use crate::types::FloatBits;

verus! {

/// A YAML number: a non-negative integer, a negative integer or a float (by its bits).
#[derive(Debug, Clone, Copy, PartialEq, Eq, Structural)]
pub enum YamlNumber {
    PosInt(u64),
    NegInt(i64),
    Float(FloatBits),
}

/// A YAML value. A mapping keeps its entries in document order.
#[derive(Debug, PartialEq)]
pub enum YamlValue {
    Null,
    Bool(bool),
    Number(YamlNumber),
    String(String),
    Sequence(Vec<YamlValue>),
    Mapping(Vec<YamlEntry>),
    Tagged(Box<TaggedYaml>),
}

/// One key-value entry of a YAML mapping.
#[derive(Debug, PartialEq)]
pub struct YamlEntry {
    pub key: YamlValue,
    pub value: YamlValue,
}

/// A value with a YAML tag such as `!Thing`.
#[derive(Debug, PartialEq)]
pub struct TaggedYaml {
    pub tag: String,
    pub value: YamlValue,
}

} // verus!

verus! {

/// The meaning of a YAML value, with sequences for vectors.
pub enum YamlV {
    Null,
    Bool(bool),
    Number(YamlNumber),
    Str(Seq<char>),
    List(Seq<YamlV>),
    Dict(Seq<(YamlV, YamlV)>),
    Tagged(Seq<char>, Box<YamlV>),
}

pub open spec fn yaml_view(v: YamlValue) -> YamlV
    decreases v,
{
    match v {
        YamlValue::Null => YamlV::Null,
        YamlValue::Bool(b) => YamlV::Bool(b),
        YamlValue::Number(n) => YamlV::Number(n),
        YamlValue::String(s) => YamlV::Str(s@),
        YamlValue::Sequence(items) => YamlV::List(yaml_list_view(items@)),
        YamlValue::Mapping(es) => YamlV::Dict(yaml_entries_view(es@)),
        YamlValue::Tagged(t) => YamlV::Tagged(t.tag@, Box::new(yaml_view(t.value))),
    }
}

/// The meanings of the values of `items`.
pub open spec fn yaml_list_view(items: Seq<YamlValue>) -> Seq<YamlV>
    decreases items,
{
    if items.len() == 0 {
        Seq::empty()
    } else {
        yaml_list_view(items.subrange(0, items.len() - 1)).push(yaml_view(items[items.len() - 1]))
    }
}

/// The meanings of the entries of `es`.
pub open spec fn yaml_entries_view(es: Seq<YamlEntry>) -> Seq<(YamlV, YamlV)>
    decreases es,
{
    if es.len() == 0 {
        Seq::empty()
    } else {
        let e = es[es.len() - 1];
        yaml_entries_view(es.subrange(0, es.len() - 1)).push((yaml_view(e.key), yaml_view(e.value)))
    }
}

/// A copy of `v` with the same meaning.
pub fn copy_yaml(v: &YamlValue) -> (r: YamlValue)
    ensures
        yaml_view(r) == yaml_view(*v),
    decreases *v,
{
    match v {
        YamlValue::Null => YamlValue::Null,
        YamlValue::Bool(b) => YamlValue::Bool(*b),
        YamlValue::Number(n) => YamlValue::Number(*n),
        YamlValue::String(s) => YamlValue::String(s.clone()),
        YamlValue::Sequence(items) => {
            let mut out: Vec<YamlValue> = Vec::new();
            let mut i: usize = 0;
            while i < items.len()
                invariant
                    i <= items@.len(),
                    yaml_list_view(out@) == yaml_list_view(items@.subrange(0, i as int)),
                    *v == YamlValue::Sequence(*items),
                decreases items@.len() - i,
            {
                let ghost old_out = out@;
                proof {
                    assert(decreases_to!(*v => (*v)->Sequence_0));
                    assert(decreases_to!(*items => items@));
                    assert(decreases_to!(items@ => items@[i as int]));
                    assert(decreases_to!(*v => items@[i as int]));
                }
                let c = copy_yaml(&items[i]);
                out.push(c);
                assert(out@.subrange(0, out@.len() - 1) =~= old_out);
                assert(items@.subrange(0, i + 1).subrange(0, i as int) =~= items@.subrange(0, i as int));
                i = i + 1;
            }
            let r = YamlValue::Sequence(out);
            assert(items@.subrange(0, items@.len() as int) =~= items@);
            r
        },
        YamlValue::Mapping(es) => {
            let mut out: Vec<YamlEntry> = Vec::new();
            let mut i: usize = 0;
            while i < es.len()
                invariant
                    i <= es@.len(),
                    yaml_entries_view(out@) == yaml_entries_view(es@.subrange(0, i as int)),
                    *v == YamlValue::Mapping(*es),
                decreases es@.len() - i,
            {
                let ghost old_out = out@;
                proof {
                    assert(decreases_to!(*v => (*v)->Mapping_0));
                    assert(decreases_to!(*es => es@));
                    assert(decreases_to!(es@[i as int] => es@[i as int].key));
                    assert(decreases_to!(es@[i as int] => es@[i as int].value));
                    assert(decreases_to!(es@ => es@[i as int]));
                    assert(decreases_to!(*v => es@[i as int].key));
                    assert(decreases_to!(*v => es@[i as int].value));
                    assert(decreases_to!(es@[i as int] => es@[i as int].key));
                    assert(decreases_to!(es@[i as int] => es@[i as int].value));
                }
                let k = copy_yaml(&es[i].key);
                let x = copy_yaml(&es[i].value);
                out.push(YamlEntry { key: k, value: x });
                assert(out@.subrange(0, out@.len() - 1) =~= old_out);
                assert(es@.subrange(0, i + 1).subrange(0, i as int) =~= es@.subrange(0, i as int));
                i = i + 1;
            }
            let r = YamlValue::Mapping(out);
            assert(es@.subrange(0, es@.len() as int) =~= es@);
            r
        },
        YamlValue::Tagged(t) => {
            let x = copy_yaml(&t.value);
            YamlValue::Tagged(Box::new(TaggedYaml { tag: t.tag.clone(), value: x }))
        },
    }
}

impl Clone for YamlValue {
    /// A copy with the same meaning.
    fn clone(&self) -> (r: YamlValue)
        ensures
            yaml_view(r) == yaml_view(*self),
    {
        copy_yaml(self)
    }
}

} // verus!

verus! {

pub proof fn lemma_list_view(s: Seq<YamlValue>)
    ensures
        yaml_list_view(s).len() == s.len(),
        forall|i: int| 0 <= i < s.len() ==> #[trigger] yaml_list_view(s)[i] == yaml_view(s[i]),
    decreases s.len(),
{
    if s.len() > 0 {
        let p = s.subrange(0, s.len() - 1);
        lemma_list_view(p);
        assert forall|i: int| 0 <= i < s.len() implies #[trigger] yaml_list_view(s)[i] == yaml_view(s[i]) by {
            if i < s.len() - 1 {
                assert(p[i] == s[i]);
            }
        }
    }
}

pub proof fn lemma_entries_view(s: Seq<YamlEntry>)
    ensures
        yaml_entries_view(s).len() == s.len(),
        forall|i: int| 0 <= i < s.len() ==> #[trigger] yaml_entries_view(s)[i] == (yaml_view(s[i].key), yaml_view(s[i].value)),
    decreases s.len(),
{
    if s.len() > 0 {
        let p = s.subrange(0, s.len() - 1);
        lemma_entries_view(p);
        assert forall|i: int| 0 <= i < s.len() implies #[trigger] yaml_entries_view(s)[i] == (yaml_view(s[i].key), yaml_view(s[i].value)) by {
            if i < s.len() - 1 {
                assert(p[i] == s[i]);
            }
        }
    }
}

/// Do `a` and `b` mean the same YAML value? Mappings compare entry by entry, in order.
pub fn yaml_equal(a: &YamlValue, b: &YamlValue) -> (r: bool)
    ensures
        r == (yaml_view(*a) == yaml_view(*b)),
    decreases *a,
{
    match (a, b) {
        (YamlValue::Null, YamlValue::Null) => true,
        (YamlValue::Bool(x), YamlValue::Bool(y)) => *x == *y,
        (YamlValue::Number(x), YamlValue::Number(y)) => *x == *y,
        (YamlValue::String(x), YamlValue::String(y)) => crate::text::compare_text(x.as_str(), y.as_str()) == 0,
        (YamlValue::Sequence(xs), YamlValue::Sequence(ys)) => {
            proof {
                lemma_list_view(xs@);
                lemma_list_view(ys@);
            }
            if xs.len() != ys.len() {
                return false;
            }
            let mut i: usize = 0;
            while i < xs.len()
                invariant
                    *a == YamlValue::Sequence(*xs),
                    *b == YamlValue::Sequence(*ys),
                    xs@.len() == ys@.len(),
                    i <= xs@.len(),
                    forall|j: int| 0 <= j < i ==> yaml_view(#[trigger] xs@[j]) == yaml_view(ys@[j]),
                decreases xs@.len() - i,
            {
                proof {
                    assert(decreases_to!(*a => (*a)->Sequence_0));
                    assert(decreases_to!(*xs => xs@));
                    assert(decreases_to!(xs@ => xs@[i as int]));
                }
                if !yaml_equal(&xs[i], &ys[i]) {
                    proof {
                        lemma_list_view(xs@);
                        lemma_list_view(ys@);
                        assert(yaml_list_view(xs@)[i as int] != yaml_list_view(ys@)[i as int]);
                    }
                    return false;
                }
                i = i + 1;
            }
            proof {
                assert(yaml_list_view(xs@) =~= yaml_list_view(ys@));
            }
            true
        },
        (YamlValue::Mapping(xs), YamlValue::Mapping(ys)) => {
            proof {
                lemma_entries_view(xs@);
                lemma_entries_view(ys@);
            }
            if xs.len() != ys.len() {
                return false;
            }
            let mut i: usize = 0;
            while i < xs.len()
                invariant
                    *a == YamlValue::Mapping(*xs),
                    *b == YamlValue::Mapping(*ys),
                    xs@.len() == ys@.len(),
                    i <= xs@.len(),
                    forall|j: int| 0 <= j < i ==> yaml_view((#[trigger] xs@[j]).key) == yaml_view(ys@[j].key)
                        && yaml_view(xs@[j].value) == yaml_view(ys@[j].value),
                decreases xs@.len() - i,
            {
                proof {
                    assert(decreases_to!(*a => (*a)->Mapping_0));
                    assert(decreases_to!(*xs => xs@));
                    assert(decreases_to!(xs@ => xs@[i as int]));
                    assert(decreases_to!(xs@[i as int] => xs@[i as int].key));
                    assert(decreases_to!(xs@[i as int] => xs@[i as int].value));
                }
                if !yaml_equal(&xs[i].key, &ys[i].key) || !yaml_equal(&xs[i].value, &ys[i].value) {
                    proof {
                        lemma_entries_view(xs@);
                        lemma_entries_view(ys@);
                        assert(yaml_entries_view(xs@)[i as int] != yaml_entries_view(ys@)[i as int]);
                    }
                    return false;
                }
                i = i + 1;
            }
            proof {
                assert(yaml_entries_view(xs@) =~= yaml_entries_view(ys@));
            }
            true
        },
        (YamlValue::Tagged(x), YamlValue::Tagged(y)) => {
            crate::text::compare_text(x.tag.as_str(), y.tag.as_str()) == 0 && yaml_equal(&x.value, &y.value)
        },
        _ => false,
    }
}

} // verus!

verus! {

/// The bits that stand for a float as a mapping key: every NaN is the one NaN, and `-0.0` is
/// `0.0` (YAML has one NaN, and `-0.0 == 0.0`).
pub open spec fn canonical_float_bits(bits: u64) -> u64 {
    let magnitude = bits % 0x8000_0000_0000_0000u64;
    if magnitude > 0x7FF0_0000_0000_0000u64 {
        0x7FF8_0000_0000_0000u64
    } else if magnitude == 0 {
        0
    } else {
        bits
    }
}

/// A key as mapping lookups compare it: a float key by its canonical bits, any other key as
/// it is.
pub open spec fn key_norm(k: YamlV) -> YamlV {
    match k {
        YamlV::Number(YamlNumber::Float(f)) => YamlV::Number(YamlNumber::Float(FloatBits { bits: canonical_float_bits(f.bits) })),
        _ => k,
    }
}

fn canonical_bits(bits: u64) -> (r: u64)
    ensures
        r == canonical_float_bits(bits),
{
    let magnitude = bits % 0x8000_0000_0000_0000u64;
    if magnitude > 0x7FF0_0000_0000_0000u64 {
        0x7FF8_0000_0000_0000u64
    } else if magnitude == 0 {
        0
    } else {
        bits
    }
}

/// Are `a` and `b` the same mapping key? Float keys compare as YAML numbers (all NaNs alike,
/// `-0.0` like `0.0`); other keys compare by what they mean, a sequence or mapping key entry
/// by entry, in order, with the floats inside it compared by their bits.
fn same_key(a: &YamlValue, b: &YamlValue) -> (r: bool)
    ensures
        r == (key_norm(yaml_view(*a)) == key_norm(yaml_view(*b))),
{
    match (a, b) {
        (YamlValue::Number(YamlNumber::Float(x)), YamlValue::Number(YamlNumber::Float(y))) => {
            canonical_bits(x.bits) == canonical_bits(y.bits)
        },
        _ => {
            let e = yaml_equal(a, b);
            proof {
                if !(yaml_view(*a) is Number && yaml_view(*a)->Number_0 is Float) && !(yaml_view(*b) is Number && yaml_view(*b)->Number_0 is Float) {
                } else if yaml_view(*a) is Number && yaml_view(*a)->Number_0 is Float {
                    assert(!(*b matches YamlValue::Number(YamlNumber::Float(_))));
                } else {
                    assert(!(*a matches YamlValue::Number(YamlNumber::Float(_))));
                }
            }
            e
        },
    }
}

/// The first index of an entry of `m` with key `k`.
pub open spec fn find_key(m: Seq<(YamlV, YamlV)>, k: YamlV) -> Option<int>
    decreases m.len(),
{
    if m.len() == 0 {
        None
    } else {
        match find_key(m.drop_last(), k) {
            Some(i) => Some(i),
            None => if key_norm(m.last().0) == key_norm(k) { Some(m.len() - 1) } else { None },
        }
    }
}

/// `m` without its entry at `i`, whose place the last entry takes.
pub open spec fn swap_remove_at(m: Seq<(YamlV, YamlV)>, i: int) -> Seq<(YamlV, YamlV)> {
    m.update(i, m.last()).drop_last()
}

/// The deep merge of `overlay` onto `base`: two mappings merge entry by entry; otherwise the
/// overlay wins.
pub open spec fn merge_view(base: YamlV, overlay: YamlV) -> YamlV
    decreases overlay, 1int,
{
    match (base, overlay) {
        (YamlV::Dict(bm), YamlV::Dict(om)) => YamlV::Dict(merge_entries(bm, om)),
        _ => overlay,
    }
}

/// The entries of `om`, in order, merged onto `bm`: an overlay key already present takes the
/// base entry out (the last entry filling its place) and is put at the end with the merge of
/// both values; a new key is put at the end.
pub open spec fn merge_entries(bm: Seq<(YamlV, YamlV)>, om: Seq<(YamlV, YamlV)>) -> Seq<(YamlV, YamlV)>
    decreases om, 0int,
{
    if om.len() == 0 {
        bm
    } else {
        let acc = merge_entries(bm, om.subrange(0, om.len() - 1));
        let e = om[om.len() - 1];
        proof {
            assert(decreases_to!(om => e));
            assert(decreases_to!(e => e.1));
        }
        match find_key(acc, e.0) {
            Some(i) => swap_remove_at(acc, i).push((e.0, merge_view(acc[i].1, e.1))),
            None => acc.push(e),
        }
    }
}

} // verus!

verus! {

pub proof fn lemma_find_key(m: Seq<(YamlV, YamlV)>, k: YamlV)
    ensures
        match find_key(m, k) {
            Some(i) => 0 <= i < m.len() && key_norm(m[i].0) == key_norm(k) && forall|j: int| 0 <= j < i ==> key_norm((#[trigger] m[j]).0) != key_norm(k),
            None => forall|j: int| 0 <= j < m.len() ==> key_norm((#[trigger] m[j]).0) != key_norm(k),
        },
    decreases m.len(),
{
    if m.len() > 0 {
        lemma_find_key(m.drop_last(), k);
        assert forall|j: int| 0 <= j < m.len() - 1 implies (#[trigger] m[j]) == m.drop_last()[j] by {}
    }
}

/// The index of the first entry of `m` whose key is the same key as `k`.
fn find_entry(m: &Vec<YamlEntry>, k: &YamlValue) -> (r: Option<usize>)
    ensures
        match r {
            Some(i) => find_key(yaml_entries_view(m@), yaml_view(*k)) == Some(i as int),
            None => find_key(yaml_entries_view(m@), yaml_view(*k)) is None,
        },
{
    proof {
        lemma_entries_view(m@);
        lemma_find_key(yaml_entries_view(m@), yaml_view(*k));
    }
    let mut j: usize = 0;
    while j < m.len()
        invariant
            j <= m@.len(),
            yaml_entries_view(m@).len() == m@.len(),
            forall|q: int| 0 <= q < m@.len() ==> #[trigger] yaml_entries_view(m@)[q] == (yaml_view(m@[q].key), yaml_view(m@[q].value)),
            forall|q: int| 0 <= q < j ==> key_norm(yaml_view((#[trigger] m@[q]).key)) != key_norm(yaml_view(*k)),
        decreases m@.len() - j,
    {
        if same_key(&m[j].key, k) {
            proof {
                lemma_find_key(yaml_entries_view(m@), yaml_view(*k));
                let v = yaml_entries_view(m@);
                match find_key(v, yaml_view(*k)) {
                    Some(i) => {
                        if i < j {
                            assert(v[i].0 == yaml_view(m@[i].key));
                        } else if i > j {
                            assert(key_norm(v[j as int].0) == key_norm(yaml_view(*k)));
                        }
                    },
                    None => {
                        assert(key_norm(v[j as int].0) == key_norm(yaml_view(*k)));
                    },
                }
            }
            return Some(j);
        }
        j = j + 1;
    }
    proof {
        lemma_find_key(yaml_entries_view(m@), yaml_view(*k));
        let v = yaml_entries_view(m@);
        if let Some(i) = find_key(v, yaml_view(*k)) {
            assert(v[i].0 == yaml_view(m@[i].key));
        }
    }
    None
}

/// Deep-merges `overlay` onto `base`: mappings merge entry by entry (an overlay entry
/// replaces the base entry of the same key with the merge of both values, and new keys are
/// added); sequences and scalars of the overlay replace the base.
pub fn deep_merge(base: YamlValue, overlay: YamlValue) -> (r: YamlValue)
    ensures
        yaml_view(r) == merge_view(yaml_view(base), yaml_view(overlay)),
    decreases overlay,
{
    let ghost ov = yaml_view(overlay);
    let ghost bv = yaml_view(base);
    match base {
        YamlValue::Mapping(bm0) => match overlay {
            YamlValue::Mapping(om) => {
                let ghost omv = om@;
                let ghost bmv = yaml_entries_view(bm0@);
                let ghost oev = yaml_entries_view(om@);
                proof {
                    lemma_entries_view(om@);
                    assert(oev.subrange(0, 0) =~= Seq::<(YamlV, YamlV)>::empty());
                }
                let n = om.len();
                let mut bm = bm0;
                let mut rest = om;
                let mut i: usize = 0;
                while rest.len() > 0
                    invariant
                        overlay == YamlValue::Mapping(overlay->Mapping_0),
                        overlay->Mapping_0@ == omv,
                        oev == yaml_entries_view(omv),
                        oev.len() == omv.len(),
                        forall|q: int| 0 <= q < omv.len() ==> #[trigger] oev[q] == (yaml_view(omv[q].key), yaml_view(omv[q].value)),
                        n == omv.len(),
                        i + rest@.len() == n,
                        rest@ == omv.subrange(i as int, n as int),
                        yaml_entries_view(bm@) == merge_entries(bmv, oev.subrange(0, i as int)),
                    decreases rest@.len(),
                {
                    let e = rest.remove(0);
                    assert(e == omv[i as int]);
                    assert(rest@ =~= omv.subrange(i + 1, n as int));
                    let ghost cur = oev.subrange(0, i + 1);
                    assert(cur.subrange(0, cur.len() - 1) =~= oev.subrange(0, i as int));
                    assert(cur[cur.len() - 1] == (yaml_view(e.key), yaml_view(e.value)));
                    let ghost acc = yaml_entries_view(bm@);
                    proof {
                        lemma_entries_view(bm@);
                    }
                    match find_entry(&bm, &e.key) {
                        Some(j) => {
                            let ghost bm_before = bm@;
                            proof {
                                lemma_find_key(acc, yaml_view(e.key));
                                lemma_entries_view(bm_before);
                            }
                            let old = bm.swap_remove(j);
                            proof {
                                let v = overlay->Mapping_0;
                                assert(decreases_to!(overlay => v));
                                assert(decreases_to!(v => v@));
                                assert(decreases_to!(v@ => v@[i as int]));
                                assert(decreases_to!(v@[i as int] => v@[i as int].value));
                            }
                            let merged = deep_merge(old.value, e.value);
                            let ghost key_view = yaml_view(e.key);
                            let ghost bm_mid = bm@;
                            bm.push(YamlEntry { key: e.key, value: merged });
                            proof {
                                lemma_entries_view(bm@);
                                lemma_entries_view(bm_mid);
                                assert(acc[j as int].1 == yaml_view(old.value));
                                assert(yaml_entries_view(bm@) =~= swap_remove_at(acc, j as int).push((key_view, yaml_view(merged))));
                            }
                        },
                        None => {
                            bm.push(e);
                            proof {
                                lemma_entries_view(bm@);
                                assert(yaml_entries_view(bm@) =~= acc.push((yaml_view(e.key), yaml_view(e.value))));
                            }
                        },
                    }
                    i = i + 1;
                }
                proof {
                    assert(oev.subrange(0, n as int) =~= oev);
                }
                YamlValue::Mapping(bm)
            },
            other => other,
        },
        _ => overlay,
    }
}

/// Merges documents left to right, the rightmost taking precedence; none for no documents.
pub fn merge_documents(documents: Vec<YamlValue>) -> (r: Option<YamlValue>)
    ensures
        match r {
            Some(v) => documents@.len() > 0 && yaml_view(v) == merge_fold(yaml_list_view(documents@)),
            None => documents@.len() == 0,
        },
{
    proof {
        lemma_list_view(documents@);
    }
    let ghost dv = yaml_list_view(documents@);
    let n = documents.len();
    if n == 0 {
        return None;
    }
    let mut rest = documents;
    let mut acc = rest.remove(0);
    let mut i: usize = 1;
    assert(dv.subrange(0, 1).subrange(1, 1) =~= Seq::<YamlV>::empty());
    while rest.len() > 0
        invariant
            1 <= i <= n,
            dv.len() == n,
            i + rest@.len() == n,
            forall|q: int| 0 <= q < rest@.len() ==> yaml_view(#[trigger] rest@[q]) == dv[i + q],
            yaml_view(acc) == merge_fold(dv.subrange(0, i as int)),
        decreases rest@.len(),
    {
        let next = rest.remove(0);
        let ghost cur = dv.subrange(0, i + 1);
        assert(cur.drop_last() =~= dv.subrange(0, i as int));
        assert(cur.last() == yaml_view(next));
        acc = deep_merge(acc, next);
        i = i + 1;
    }
    assert(dv.subrange(0, n as int) =~= dv);
    Some(acc)
}

/// The merge of non-empty `docs` from left to right.
pub open spec fn merge_fold(docs: Seq<YamlV>) -> YamlV
    decreases docs.len(),
{
    if docs.len() <= 1 {
        if docs.len() == 1 { docs[0] } else { YamlV::Null }
    } else {
        merge_view(merge_fold(docs.drop_last()), docs.last())
    }
}

} // verus!

verus! {

/// No two entries of `m` have the same key.
pub open spec fn unique_keys(m: Seq<(YamlV, YamlV)>) -> bool {
    forall|i: int, j: int| 0 <= i < j < m.len() ==> key_norm((#[trigger] m[i]).0) != key_norm((#[trigger] m[j]).0)
}

/// The value under key `k` in `m`, if any.
pub open spec fn lookup_entry(m: Seq<(YamlV, YamlV)>, k: YamlV) -> Option<YamlV> {
    match find_key(m, k) {
        Some(i) => Some(m[i].1),
        None => None,
    }
}

proof fn lemma_unique_lookup(m: Seq<(YamlV, YamlV)>, i: int)
    requires
        unique_keys(m),
        0 <= i < m.len(),
    ensures
        lookup_entry(m, m[i].0) == Some(m[i].1),
{
    lemma_find_key(m, m[i].0);
    match find_key(m, m[i].0) {
        Some(j) => {
            if j != i {
                if j < i {
                    assert(key_norm(m[j].0) != key_norm(m[i].0));
                } else {
                    assert(key_norm(m[i].0) != key_norm(m[j].0));
                }
            }
        },
        None => {},
    }
}

/// Keys that are the same key find the same entry.
proof fn lemma_lookup_same_key(m: Seq<(YamlV, YamlV)>, k1: YamlV, k2: YamlV)
    requires
        key_norm(k1) == key_norm(k2),
    ensures
        find_key(m, k1) == find_key(m, k2),
        lookup_entry(m, k1) == lookup_entry(m, k2),
    decreases m.len(),
{
    if m.len() > 0 {
        lemma_lookup_same_key(m.drop_last(), k1, k2);
    }
}

proof fn lemma_absent_lookup(m: Seq<(YamlV, YamlV)>, k: YamlV)
    requires
        forall|i: int| 0 <= i < m.len() ==> key_norm((#[trigger] m[i]).0) != key_norm(k),
    ensures
        lookup_entry(m, k) is None,
{
    lemma_find_key(m, k);
}

/// What a merged mapping holds under a key: the merge of both values where both mappings
/// have the key, the overlay's value where only it has the key, else the base's value.
pub open spec fn merged_lookup(base: Option<YamlV>, overlay: Option<YamlV>) -> Option<YamlV> {
    match (base, overlay) {
        (Some(b), Some(o)) => Some(merge_view(b, o)),
        (None, Some(o)) => Some(o),
        (b, None) => b,
    }
}

/// What one more overlay entry `e` must keep: `acc` is the merge of `bm` with the entries
/// `om1` before `e`, and `om` is `om1` with `e` at the end.
pub open spec fn merge_step_ready(
    bm: Seq<(YamlV, YamlV)>,
    om: Seq<(YamlV, YamlV)>,
    om1: Seq<(YamlV, YamlV)>,
    acc: Seq<(YamlV, YamlV)>,
    e: (YamlV, YamlV),
) -> bool {
    &&& unique_keys(acc)
    &&& forall|k: YamlV| #[trigger] lookup_entry(acc, k) == merged_lookup(lookup_entry(bm, k), lookup_entry(om1, k))
    &&& lookup_entry(om, e.0) == Some(e.1)
    &&& lookup_entry(om1, e.0) is None
    &&& forall|k: YamlV| key_norm(k) != key_norm(e.0) ==> #[trigger] lookup_entry(om, k) == lookup_entry(om1, k)
}

/// A step of the merge where the key of `e` is already in `acc`, at `i`.
proof fn lemma_merge_step_found(
    bm: Seq<(YamlV, YamlV)>,
    om: Seq<(YamlV, YamlV)>,
    om1: Seq<(YamlV, YamlV)>,
    acc: Seq<(YamlV, YamlV)>,
    e: (YamlV, YamlV),
    i: int,
)
    requires
        merge_step_ready(bm, om, om1, acc, e),
        find_key(acc, e.0) == Some(i),
    ensures
        ({
            let res = swap_remove_at(acc, i).push((e.0, merge_view(acc[i].1, e.1)));
            &&& unique_keys(res)
            &&& forall|k: YamlV| #[trigger] lookup_entry(res, k) == merged_lookup(lookup_entry(bm, k), lookup_entry(om, k))
        }),
{
    lemma_find_key(acc, e.0);
    let rest = swap_remove_at(acc, i);
    let v = merge_view(acc[i].1, e.1);
    let res = rest.push((e.0, v));
    lemma_unique_lookup(acc, i);
    assert forall|q: int| 0 <= q < rest.len() implies (#[trigger] rest[q]) == acc[if q == i { acc.len() - 1 } else { q }]
        && (if q == i { acc.len() - 1 } else { q }) != i by {}
    assert(unique_keys(res)) by {
        assert forall|a: int, b: int| 0 <= a < b < res.len() implies key_norm((#[trigger] res[a]).0) != key_norm((#[trigger] res[b]).0) by {
            if b == res.len() - 1 {
                let qa = if a == i { acc.len() - 1 } else { a };
                assert(res[a] == acc[qa]);
                assert(qa != i);
                if key_norm(acc[qa].0) == key_norm(acc[i].0) {
                    if qa < i {
                        assert(key_norm(acc[qa].0) != key_norm(acc[i].0));
                    } else {
                        assert(key_norm(acc[i].0) != key_norm(acc[qa].0));
                    }
                }
            } else {
                let qa = if a == i { acc.len() - 1 } else { a };
                let qb = if b == i { acc.len() - 1 } else { b };
                assert(res[a] == acc[qa] && res[b] == acc[qb]);
                assert(qa != qb);
                if qa < qb {
                    assert(key_norm(acc[qa].0) != key_norm(acc[qb].0));
                } else {
                    assert(key_norm(acc[qb].0) != key_norm(acc[qa].0));
                }
            }
        }
    }
    assert(lookup_entry(res, e.0) == merged_lookup(lookup_entry(bm, e.0), lookup_entry(om, e.0))) by {
        assert(lookup_entry(acc, e.0) == merged_lookup(lookup_entry(bm, e.0), lookup_entry(om1, e.0)));
        lemma_unique_lookup(res, res.len() - 1);
        lemma_lookup_same_key(acc, acc[i].0, e.0);
    }
    assert forall|k: YamlV| #[trigger] lookup_entry(res, k)
        == merged_lookup(lookup_entry(bm, k), lookup_entry(om, k)) by {
        if key_norm(k) == key_norm(e.0) {
            lemma_lookup_same_key(res, k, e.0);
            lemma_lookup_same_key(bm, k, e.0);
            lemma_lookup_same_key(om, k, e.0);
        } else {
            assert(lookup_entry(acc, k) == merged_lookup(lookup_entry(bm, k), lookup_entry(om1, k)));
            assert(lookup_entry(om, k) == lookup_entry(om1, k));
            lemma_find_key(acc, k);
            match find_key(acc, k) {
                Some(j) => {
                    lemma_unique_lookup(acc, j);
                    assert(j != i);
                    let q = if j == acc.len() - 1 { i } else { j };
                    assert(res[q] == acc[j]);
                    lemma_unique_lookup(res, q);
                    lemma_lookup_same_key(res, res[q].0, k);
                    lemma_lookup_same_key(acc, acc[j].0, k);
                },
                None => {
                    assert forall|q: int| 0 <= q < res.len() implies key_norm((#[trigger] res[q]).0) != key_norm(k) by {
                        if q < rest.len() {
                            let qa = if q == i { acc.len() - 1 } else { q };
                            assert(res[q] == acc[qa]);
                        }
                    }
                    lemma_absent_lookup(res, k);
                },
            }
        }
    }
}

/// A step of the merge where the key of `e` is not in `acc`.
proof fn lemma_merge_step_new(
    bm: Seq<(YamlV, YamlV)>,
    om: Seq<(YamlV, YamlV)>,
    om1: Seq<(YamlV, YamlV)>,
    acc: Seq<(YamlV, YamlV)>,
    e: (YamlV, YamlV),
)
    requires
        merge_step_ready(bm, om, om1, acc, e),
        find_key(acc, e.0) is None,
    ensures
        unique_keys(acc.push(e)),
        forall|k: YamlV| #[trigger] lookup_entry(acc.push(e), k) == merged_lookup(lookup_entry(bm, k), lookup_entry(om, k)),
{
    lemma_find_key(acc, e.0);
    let res = acc.push(e);
    assert(unique_keys(res)) by {
        assert forall|a: int, b: int| 0 <= a < b < res.len() implies key_norm((#[trigger] res[a]).0) != key_norm((#[trigger] res[b]).0) by {
            if b == res.len() - 1 {
                assert(res[a] == acc[a]);
            } else {
                assert(res[a] == acc[a] && res[b] == acc[b]);
            }
        }
    }
    assert(lookup_entry(res, e.0) == merged_lookup(lookup_entry(bm, e.0), lookup_entry(om, e.0))) by {
        assert(lookup_entry(acc, e.0) == merged_lookup(lookup_entry(bm, e.0), lookup_entry(om1, e.0)));
        lemma_unique_lookup(res, res.len() - 1);
        lemma_absent_lookup(acc, e.0);
    }
    assert forall|k: YamlV| #[trigger] lookup_entry(res, k)
        == merged_lookup(lookup_entry(bm, k), lookup_entry(om, k)) by {
        if key_norm(k) == key_norm(e.0) {
            lemma_lookup_same_key(res, k, e.0);
            lemma_lookup_same_key(bm, k, e.0);
            lemma_lookup_same_key(om, k, e.0);
        } else {
            assert(lookup_entry(acc, k) == merged_lookup(lookup_entry(bm, k), lookup_entry(om1, k)));
            assert(lookup_entry(om, k) == lookup_entry(om1, k));
            lemma_find_key(acc, k);
            match find_key(acc, k) {
                Some(j) => {
                    lemma_unique_lookup(acc, j);
                    assert(res[j] == acc[j]);
                    lemma_unique_lookup(res, j);
                    lemma_lookup_same_key(res, res[j].0, k);
                    lemma_lookup_same_key(acc, acc[j].0, k);
                },
                None => {
                    assert forall|q: int| 0 <= q < res.len() implies key_norm((#[trigger] res[q]).0) != key_norm(k) by {
                        if q < acc.len() {
                            assert(res[q] == acc[q]);
                        }
                    }
                    lemma_absent_lookup(res, k);
                },
            }
        }
    }
}

/// Merging two mappings whose keys are unique gives a mapping whose keys are unique and
/// which holds, under each key, the merge of the two values (or the one value there is).
/// Keys are compared as YAML compares them: float keys by value, all NaNs alike.
pub proof fn lemma_merge_lookup(bm: Seq<(YamlV, YamlV)>, om: Seq<(YamlV, YamlV)>)
    requires
        unique_keys(bm),
        unique_keys(om),
    ensures
        unique_keys(merge_entries(bm, om)),
        forall|k: YamlV| #[trigger] lookup_entry(merge_entries(bm, om), k)
            == merged_lookup(lookup_entry(bm, k), lookup_entry(om, k)),
    decreases om.len(),
{
    if om.len() == 0 {
        assert forall|k: YamlV| #[trigger] lookup_entry(merge_entries(bm, om), k)
            == merged_lookup(lookup_entry(bm, k), lookup_entry(om, k)) by {
            lemma_absent_lookup(om, k);
        }
    } else {
        let om1 = om.subrange(0, om.len() - 1);
        let e = om[om.len() - 1];
        assert(unique_keys(om1)) by {
            assert forall|i: int, j: int| 0 <= i < j < om1.len() implies key_norm((#[trigger] om1[i]).0) != key_norm((#[trigger] om1[j]).0) by {
                assert(om1[i] == om[i] && om1[j] == om[j]);
            }
        }
        lemma_merge_lookup(bm, om1);
        let acc = merge_entries(bm, om1);
        assert forall|i: int| 0 <= i < om1.len() implies key_norm((#[trigger] om1[i]).0) != key_norm(e.0) by {
            assert(om1[i] == om[i]);
            assert(key_norm(om[i].0) != key_norm(om[om.len() - 1].0));
        }
        lemma_absent_lookup(om1, e.0);
        lemma_unique_lookup(om, om.len() - 1);
        assert forall|k: YamlV| key_norm(k) != key_norm(e.0) implies #[trigger] lookup_entry(om, k) == lookup_entry(om1, k) by {
            lemma_find_key(om, k);
            lemma_find_key(om1, k);
            match find_key(om, k) {
                Some(i) => {
                    assert(i != om.len() - 1);
                    assert(om1[i] == om[i]);
                    lemma_unique_lookup(om1, i);
                    lemma_unique_lookup(om, i);
                    lemma_lookup_same_key(om1, om1[i].0, k);
                    lemma_lookup_same_key(om, om[i].0, k);
                },
                None => {
                    assert forall|i: int| 0 <= i < om1.len() implies key_norm((#[trigger] om1[i]).0) != key_norm(k) by {
                        assert(om1[i] == om[i]);
                    }
                    lemma_absent_lookup(om1, k);
                },
            }
        }
        assert(merge_step_ready(bm, om, om1, acc, e));
        match find_key(acc, e.0) {
            Some(i) => {
                lemma_merge_step_found(bm, om, om1, acc, e, i);
            },
            None => {
                lemma_merge_step_new(bm, om, om1, acc, e);
            },
        }
    }
}

/// Where the overlay is not a mapping, or the base is not, the merge is the overlay.
pub proof fn lemma_merge_overlay_wins(base: YamlV, overlay: YamlV)
    requires
        !(base is Dict && overlay is Dict),
    ensures
        merge_view(base, overlay) == overlay,
{
}

} // verus!
