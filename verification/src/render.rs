use vstd::prelude::*;

use crate::yaml::{keys_unique, lemma_map_view, lemma_vm_index, map_view, view_of, vm_index, vm_set,
    YamlValue, YamlView};

verus! {

broadcast use vstd::std_specs::vec::axiom_vec_index_decreases;

/// Declares `serde_yaml::Value`, the crate's own document tree, so that it
/// can stand in signatures; it stays opaque here.
#[verifier::external_type_specification]
#[verifier::external_body]
pub struct ExYamlValue(serde_yaml::Value);

/// Declares `serde_yaml::Mapping`, the crate's insertion-ordered map.
#[verifier::external_type_specification]
#[verifier::external_body]
pub struct ExYamlMapping(serde_yaml::Mapping);

/// The document shape that a `serde_yaml` value stands for.
pub uninterp spec fn serde_view(v: serde_yaml::Value) -> YamlView;

/// The entries of a `serde_yaml` mapping, in insertion order.
pub uninterp spec fn mapping_view(m: serde_yaml::Mapping) -> Seq<(Seq<char>, YamlView)>;

/// Every key of the mapping is a string value.
pub uninterp spec fn mapping_str_keyed(m: serde_yaml::Mapping) -> bool;

/// The YAML text that `serde_yaml` renders for a document of this shape.
pub uninterp spec fn yaml_text_of(v: YamlView) -> Seq<char>;

/// Relies on `serde_yaml::Value::Null`: the null scalar.
#[verifier::external_body]
fn serde_null() -> (r: serde_yaml::Value)
    ensures
        serde_view(r) == YamlView::Null,
{
    serde_yaml::Value::Null
}

/// Relies on `serde_yaml::Value::Bool`: a boolean scalar.
#[verifier::external_body]
fn serde_bool(b: bool) -> (r: serde_yaml::Value)
    ensures
        serde_view(r) == YamlView::Bool(b),
{
    serde_yaml::Value::Bool(b)
}

/// Relies on `serde_yaml::Value::Number` and `serde_yaml::Number::from`: an
/// integer scalar.
#[verifier::external_body]
fn serde_int(i: i64) -> (r: serde_yaml::Value)
    ensures
        serde_view(r) == YamlView::Int(i as int),
{
    serde_yaml::Value::Number(serde_yaml::Number::from(i))
}

/// Relies on `serde_yaml::Value::String`: a string scalar.
#[verifier::external_body]
fn serde_str(s: String) -> (r: serde_yaml::Value)
    ensures
        serde_view(r) == YamlView::Str(s@),
{
    serde_yaml::Value::String(s)
}

/// Relies on `serde_yaml::Value::Sequence`: a sequence node holds its
/// children in order.
#[verifier::external_body]
fn serde_sequence(xs: Vec<serde_yaml::Value>) -> (r: serde_yaml::Value)
    ensures
        serde_view(r) == YamlView::Sequence(
            Seq::new(xs@.len(), |i: int| serde_view(xs@[i])),
        ),
{
    serde_yaml::Value::Sequence(xs)
}

/// Relies on `serde_yaml::Mapping::new`: a fresh mapping is empty.
#[verifier::external_body]
fn mapping_new() -> (r: serde_yaml::Mapping)
    ensures
        mapping_view(r) == Seq::<(Seq<char>, YamlView)>::empty(),
        mapping_str_keyed(r),
{
    serde_yaml::Mapping::new()
}

/// Relies on `serde_yaml::Mapping::insert` (an insertion-ordered map): an
/// existing key's value is replaced in place, a new key is appended at the
/// end, and no other entry moves.
#[verifier::external_body]
fn mapping_insert(m: &mut serde_yaml::Mapping, k: String, v: serde_yaml::Value)
    requires
        mapping_str_keyed(*old(m)),
    ensures
        mapping_str_keyed(*final(m)),
        mapping_view(*final(m)) == vm_set(mapping_view(*old(m)), k@, serde_view(v)),
{
    m.insert(serde_yaml::Value::String(k), v);
}

/// Relies on `serde_yaml::Value::Mapping`: a mapping node holds exactly the
/// mapping's entries.
#[verifier::external_body]
fn serde_mapping(m: serde_yaml::Mapping) -> (r: serde_yaml::Value)
    requires
        mapping_str_keyed(m),
    ensures
        serde_view(r) == YamlView::Mapping(mapping_view(m)),
{
    serde_yaml::Value::Mapping(m)
}

/// Relies on `serde_yaml::to_string`: the rendered YAML text is a function of
/// the value tree alone.
#[verifier::external_body]
fn yaml_to_string(v: &serde_yaml::Value) -> (r: String)
    ensures
        r@ == yaml_text_of(serde_view(*v)),
{
    serde_yaml::to_string(v).unwrap_or(String::new())
}

/// Rebuild a document as a `serde_yaml` value of the same shape.  Faithful
/// whenever every mapping of the document has distinct keys; a repeated key
/// would be collapsed by the insertion-ordered mapping.
#[verifier::loop_isolation(false)]
pub fn to_serde(v: &YamlValue) -> (r: serde_yaml::Value)
    ensures
        keys_unique(v@) ==> serde_view(r) == v@,
    decreases v,
{
    let ghost v0 = *v;
    match v {
        YamlValue::Null => serde_null(),
        YamlValue::Bool(b) => serde_bool(*b),
        YamlValue::Int(i) => serde_int(*i),
        YamlValue::Str(s) => serde_str(s.clone()),
        YamlValue::Sequence(xs) => {
            let mut out: Vec<serde_yaml::Value> = Vec::new();
            let mut i: usize = 0;
            while i < xs.len()
                invariant
                    i <= xs.len(),
                    out@.len() == i as int,
                    forall|j: int|
                        0 <= j < i ==> (keys_unique(view_of(xs@[j])) ==> serde_view(
                            #[trigger] out@[j],
                        ) == view_of(xs@[j])),
                decreases xs.len() - i,
            {
                let c = to_serde(&xs[i]);
                out.push(c);
                i += 1;
            }
            let r = serde_sequence(out);
            proof {
                if keys_unique(v0@) {
                    let sv = v0@->Sequence_0;
                    assert forall|j: int| 0 <= j < xs@.len() implies serde_view(out@[j])
                        == sv[j] by {
                        assert(sv[j] == view_of(xs@[j]));
                        assert(keys_unique(sv[j]));
                    }
                    assert(Seq::new(out@.len(), |i: int| serde_view(out@[i])) =~= sv);
                }
            }
            r
        },
        YamlValue::Mapping(es) => {
            let mut m = mapping_new();
            let mut i: usize = 0;
            while i < es.len()
                invariant
                    i <= es.len(),
                    mapping_str_keyed(m),
                    keys_unique(v0@) ==> mapping_view(m) == map_view(es@.take(i as int)),
                    v0 == YamlValue::Mapping(*es),
                decreases es.len() - i,
            {
                let ghost prev = mapping_view(m);
                let c = to_serde(&es[i].1);
                let k = es[i].0.clone();
                mapping_insert(&mut m, k, c);
                proof {
                    if keys_unique(v0@) {
                        let mv = v0@->Mapping_0;
                        assert(mv[i as int].0 == es@[i as int].0@);
                        assert(keys_unique(mv[i as int].1));
                        assert(mv[i as int].1 == view_of(es@[i as int].1));
                        assert(serde_view(c) == view_of(es@[i as int].1));
                        lemma_vm_index(prev, es@[i as int].0@);
                        assert forall|j: int| 0 <= j < i implies (#[trigger] prev[j]).0
                            != es@[i as int].0@ by {
                            assert(prev[j] == map_view(es@.take(i as int))[j]);
                            assert(mv[j].0 == es@[j].0@);
                        }
                        assert(vm_index(prev, es@[i as int].0@) == -1);
                        assert(mapping_view(m) == prev.push(
                            (es@[i as int].0@, view_of(es@[i as int].1)),
                        ));
                        assert(mapping_view(m) =~= map_view(es@.take(i + 1)));
                    }
                }
                i += 1;
            }
            proof {
                if keys_unique(v0@) {
                    assert(es@.take(es@.len() as int) =~= es@);
                    lemma_map_view(v0->Mapping_0);
                }
            }
            serde_mapping(m)
        },
    }
}

/// Render a document as YAML text through `serde_yaml`, preserving entry
/// order and every field exactly as the document holds them.
pub fn render_yaml(v: &YamlValue) -> (r: String)
    ensures
        keys_unique(v@) ==> r@ == yaml_text_of(v@),
{
    let t = to_serde(v);
    yaml_to_string(&t)
}

} // verus!
