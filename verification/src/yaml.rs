use vstd::prelude::*;

use crate::pod::{Container, Volume};
use crate::policy::{mounts_for, mounts_for_vols, mounts_view, storages_for, storages_for_vols,
    storages_view, AgentPolicy, KataMount, SerializedStorage};
use crate::render::yaml_text_of;

verus! {

/// The raw manifest document: a structural model of a YAML tree.  Mappings
/// keep their entries in declared order, so a document can be re-emitted
/// without reordering sibling fields.  A field that is absent stays absent:
/// nothing here invents default entries.
#[derive(Debug, PartialEq, Eq)]
pub enum YamlValue {
    Null,
    Bool(bool),
    Int(i64),
    Str(String),
    Sequence(Vec<YamlValue>),
    Mapping(Vec<(String, YamlValue)>),
}

/// The mathematical shape of a document: scalars, sequences, and ordered
/// key/value mappings with keys read as character sequences.
#[verifier::ext_equal]
pub ghost enum YamlView {
    Null,
    Bool(bool),
    Int(int),
    Str(Seq<char>),
    Sequence(Seq<YamlView>),
    Mapping(Seq<(Seq<char>, YamlView)>),
}

/// The abstraction of a document node.
pub open spec fn view_of(v: YamlValue) -> YamlView
    decreases v,
{
    match v {
        YamlValue::Null => YamlView::Null,
        YamlValue::Bool(b) => YamlView::Bool(b),
        YamlValue::Int(i) => YamlView::Int(i as int),
        YamlValue::Str(s) => YamlView::Str(s@),
        YamlValue::Sequence(xs) => YamlView::Sequence(
            Seq::new(
                xs@.len(),
                |i: int|
                    if 0 <= i < xs@.len() {
                        view_of(xs@[i])
                    } else {
                        YamlView::Null
                    },
            ),
        ),
        YamlValue::Mapping(es) => YamlView::Mapping(
            Seq::new(
                es@.len(),
                |i: int|
                    if 0 <= i < es@.len() {
                        (es@[i].0@, view_of(es@[i].1))
                    } else {
                        (Seq::empty(), YamlView::Null)
                    },
            ),
        ),
    }
}

/// The abstraction of a mapping node's entries, in declared order.
pub open spec fn map_view(es: Seq<(String, YamlValue)>) -> Seq<(Seq<char>, YamlView)> {
    Seq::new(es.len(), |i: int| (es[i].0@, view_of(es[i].1)))
}

/// A mapping node's abstraction is the pointwise abstraction of its entries.
pub proof fn lemma_map_view(es: Vec<(String, YamlValue)>)
    ensures
        view_of(YamlValue::Mapping(es)) == YamlView::Mapping(map_view(es@)),
{
    let a = view_of(YamlValue::Mapping(es))->Mapping_0;
    assert(a =~= map_view(es@));
}

impl View for YamlValue {
    type V = YamlView;

    open spec fn view(&self) -> YamlView {
        view_of(*self)
    }
}

/// Index of the first entry of `m` whose key is `k`, or -1 when no entry has
/// that key.  A lookup always answers for the first occurrence, so documents
/// with a repeated key are still handled deterministically.
pub open spec fn vm_index(m: Seq<(Seq<char>, YamlView)>, k: Seq<char>) -> int
    decreases m.len(),
{
    if m.len() == 0 {
        -1
    } else if m[0].0 == k {
        0
    } else {
        let r = vm_index(m.drop_first(), k);
        if r == -1 {
            -1
        } else {
            r + 1
        }
    }
}

/// `vm_index` finds the first entry with key `k`, and -1 exactly when the key
/// is absent.
pub proof fn lemma_vm_index(m: Seq<(Seq<char>, YamlView)>, k: Seq<char>)
    ensures
        vm_index(m, k) == -1 ==> forall|j: int| 0 <= j < m.len() ==> (#[trigger] m[j]).0 != k,
        vm_index(m, k) != -1 ==> {
            &&& 0 <= vm_index(m, k) < m.len()
            &&& m[vm_index(m, k)].0 == k
            &&& forall|j: int| 0 <= j < vm_index(m, k) ==> (#[trigger] m[j]).0 != k
        },
    decreases m.len(),
{
    if m.len() > 0 && m[0].0 != k {
        lemma_vm_index(m.drop_first(), k);
        assert forall|j: int| 1 <= j < m.len() implies m.drop_first()[j - 1] == m[j] by {}
    }
}

/// The converse direction: a first occurrence determines `vm_index`.
pub proof fn lemma_vm_index_at(m: Seq<(Seq<char>, YamlView)>, k: Seq<char>, i: int)
    requires
        0 <= i < m.len(),
        m[i].0 == k,
        forall|j: int| 0 <= j < i ==> (#[trigger] m[j]).0 != k,
    ensures
        vm_index(m, k) == i,
    decreases m.len(),
{
    if i > 0 {
        lemma_vm_index_at(m.drop_first(), k, i - 1);
    }
}

/// Update the value of the first entry keyed `k`, keeping its position and the
/// entry's own key, or append a new entry at the end when the key is absent.
pub open spec fn vm_set(
    m: Seq<(Seq<char>, YamlView)>,
    k: Seq<char>,
    v: YamlView,
) -> Seq<(Seq<char>, YamlView)> {
    let j = vm_index(m, k);
    if j == -1 {
        m.push((k, v))
    } else {
        m.update(j, (m[j].0, v))
    }
}

/// Find the first entry of `es` whose key equals `key`.
pub fn find_key(es: &Vec<(String, YamlValue)>, key: &str) -> (r: Option<usize>)
    ensures
        match r {
            Some(i) => vm_index(map_view(es@), key@) == i as int && i < es.len(),
            None => vm_index(map_view(es@), key@) == -1,
        },
{
    let ghost m = map_view(es@);
    let mut i: usize = 0;
    while i < es.len()
        invariant
            i <= es.len(),
            m == map_view(es@),
            forall|j: int| 0 <= j < i ==> (#[trigger] m[j]).0 != key@,
        decreases es.len() - i,
    {
        if str_eq(es[i].0.as_str(), key) {
            proof {
                lemma_vm_index_at(m, key@, i as int);
            }
            return Some(i);
        }
        i += 1;
    }
    proof {
        lemma_vm_index(m, key@);
    }
    None
}

/// Relies on `str`'s `PartialEq`: two string slices compare equal exactly when
/// their character sequences are equal.
#[verifier::external_body]
pub(crate) fn str_eq(a: &str, b: &str) -> (r: bool)
    ensures
        r == (a@ == b@),
{
    a == b
}

/// Why attaching the policy to a document failed.
#[derive(Clone, Copy, Debug, PartialEq, Eq, Structural)]
pub enum PolicyError {
    /// A component of the annotation path is absent, or the node at it is not
    /// a mapping.
    TargetNotFound,
    /// The annotation target holds an `annotations` field that is not a
    /// mapping, so no key can be placed under it.
    InvalidAnnotations,
}

/// The annotation key under which the generated policy text is stored.
pub const POLICY_ANNOTATION_KEY: &'static str = "io.katacontainers.config.agent.policy";

/// The key of the policy annotation, as a character sequence.
pub open spec fn policy_key() -> Seq<char> {
    POLICY_ANNOTATION_KEY@
}

/// The key of the annotation mapping inside a metadata section.
pub open spec fn annotations_key() -> Seq<char> {
    "annotations"@
}

/// The fixed annotation path, component by component: the policy lands in the
/// pod template's metadata, the section every replica is stamped from.
pub open spec fn path_key(level: int) -> Seq<char> {
    if level == 0 {
        "spec"@
    } else if level == 1 {
        "template"@
    } else {
        "metadata"@
    }
}

/// The component of the annotation path at `level`.
pub fn path_key_str(level: usize) -> (r: &'static str)
    ensures
        r@ == path_key(level as int),
{
    if level == 0 {
        "spec"
    } else if level == 1 {
        "template"
    } else {
        "metadata"
    }
}

/// Place `policy` under the policy key of the `annotations` mapping of a
/// metadata node.  An existing `annotations` mapping is updated in place; an
/// absent one is created as the node's last entry; anything else is refused.
pub open spec fn add_annotation_spec(d: YamlView, policy: Seq<char>) -> Result<
    YamlView,
    PolicyError,
> {
    match d {
        YamlView::Mapping(m) => {
            let j = vm_index(m, annotations_key());
            if j == -1 {
                Ok(
                    YamlView::Mapping(
                        m.push(
                            (
                                annotations_key(),
                                YamlView::Mapping(seq![(policy_key(), YamlView::Str(policy))]),
                            ),
                        ),
                    ),
                )
            } else {
                match m[j].1 {
                    YamlView::Mapping(a) => Ok(
                        YamlView::Mapping(
                            m.update(
                                j,
                                (m[j].0, YamlView::Mapping(vm_set(a, policy_key(), YamlView::Str(policy)))),
                            ),
                        ),
                    ),
                    _ => Err(PolicyError::InvalidAnnotations),
                }
            }
        },
        _ => Err(PolicyError::TargetNotFound),
    }
}

/// Descend the annotation path from `level` and place `policy` in the
/// metadata node at its end.  Every entry off the path is left exactly as it
/// was, in its original position.
pub open spec fn inject_at_spec(d: YamlView, level: int, policy: Seq<char>) -> Result<
    YamlView,
    PolicyError,
>
    decreases 3 - level,
{
    if level >= 3 {
        add_annotation_spec(d, policy)
    } else {
        match d {
            YamlView::Mapping(m) => {
                let j = vm_index(m, path_key(level));
                if j == -1 {
                    Err(PolicyError::TargetNotFound)
                } else {
                    match inject_at_spec(m[j].1, level + 1, policy) {
                        Ok(c) => Ok(YamlView::Mapping(m.update(j, (m[j].0, c)))),
                        Err(e) => Err(e),
                    }
                }
            },
            _ => Err(PolicyError::TargetNotFound),
        }
    }
}

/// Place `policy` under the policy key of a metadata node's `annotations`
/// mapping, creating that mapping when the node has none.
pub fn add_annotation(meta: YamlValue, policy: &str) -> (r: Result<YamlValue, PolicyError>)
    ensures
        match r {
            Ok(out) => add_annotation_spec(meta@, policy@) == Ok::<YamlView, PolicyError>(out@),
            Err(e) => add_annotation_spec(meta@, policy@) == Err::<YamlView, PolicyError>(e),
        },
{
    let ghost meta0 = meta;
    match meta {
        YamlValue::Mapping(mut es) => {
            proof {
                lemma_map_view(meta0->Mapping_0);
            }
            let ghost m0 = map_view(es@);
            match find_key(&es, "annotations") {
                Some(i) => {
                    let (k, v) = es.remove(i);
                    match v {
                        YamlValue::Mapping(mut a) => {
                            proof {
                                lemma_map_view(meta0->Mapping_0@[i as int].1->Mapping_0);
                            }
                            let ghost a0 = map_view(a@);
                            match find_key(&a, POLICY_ANNOTATION_KEY) {
                                Some(j) => {
                                    let (ka, _old) = a.remove(j);
                                    a.insert(j, (ka, YamlValue::Str(policy.to_owned())));
                                },
                                None => {
                                    a.push(
                                        (
                                            POLICY_ANNOTATION_KEY.to_owned(),
                                            YamlValue::Str(policy.to_owned()),
                                        ),
                                    );
                                },
                            }
                            proof {
                                assert(map_view(a@) =~= vm_set(
                                    a0,
                                    policy_key(),
                                    YamlView::Str(policy@),
                                ));
                                lemma_map_view(a);
                            }
                            es.insert(i, (k, YamlValue::Mapping(a)));
                            proof {
                                assert(map_view(es@) =~= m0.update(
                                    i as int,
                                    (
                                        m0[i as int].0,
                                        YamlView::Mapping(
                                            vm_set(a0, policy_key(), YamlView::Str(policy@)),
                                        ),
                                    ),
                                ));
                                lemma_map_view(es);
                            }
                            Ok(YamlValue::Mapping(es))
                        },
                        _ => Err(PolicyError::InvalidAnnotations),
                    }
                },
                None => {
                    let mut a: Vec<(String, YamlValue)> = Vec::new();
                    a.push((POLICY_ANNOTATION_KEY.to_owned(), YamlValue::Str(policy.to_owned())));
                    proof {
                        assert(map_view(a@) =~= seq![(policy_key(), YamlView::Str(policy@))]);
                        lemma_map_view(a);
                    }
                    es.push(("annotations".to_owned(), YamlValue::Mapping(a)));
                    proof {
                        assert(map_view(es@) =~= m0.push(
                            (
                                annotations_key(),
                                YamlView::Mapping(seq![(policy_key(), YamlView::Str(policy@))]),
                            ),
                        ));
                        lemma_map_view(es);
                    }
                    Ok(YamlValue::Mapping(es))
                },
            }
        },
        _ => Err(PolicyError::TargetNotFound),
    }
}

/// Descend the annotation path from `level` and place `policy` in the
/// metadata node at its end.
pub fn inject_at(doc: YamlValue, level: usize, policy: &str) -> (r: Result<
    YamlValue,
    PolicyError,
>)
    requires
        level <= 3,
    ensures
        match r {
            Ok(out) => inject_at_spec(doc@, level as int, policy@) == Ok::<
                YamlView,
                PolicyError,
            >(out@),
            Err(e) => inject_at_spec(doc@, level as int, policy@) == Err::<
                YamlView,
                PolicyError,
            >(e),
        },
    decreases 3 - level,
{
    if level == 3 {
        return add_annotation(doc, policy);
    }
    let ghost doc0 = doc;
    match doc {
        YamlValue::Mapping(mut es) => {
            proof {
                lemma_map_view(doc0->Mapping_0);
            }
            let ghost m0 = map_view(es@);
            match find_key(&es, path_key_str(level)) {
                Some(i) => {
                    let (k, child) = es.remove(i);
                    match inject_at(child, level + 1, policy) {
                        Ok(new_child) => {
                            es.insert(i, (k, new_child));
                            proof {
                                let c = inject_at_spec(
                                    doc0->Mapping_0@[i as int].1@,
                                    level + 1,
                                    policy@,
                                )->Ok_0;
                                assert(map_view(es@) =~= m0.update(
                                    i as int,
                                    (m0[i as int].0, c),
                                ));
                                lemma_map_view(es);
                            }
                            Ok(YamlValue::Mapping(es))
                        },
                        Err(e) => Err(e),
                    }
                },
                None => Err(PolicyError::TargetNotFound),
            }
        },
        _ => Err(PolicyError::TargetNotFound),
    }
}

/// The node at the end of the annotation path, when every component from
/// `level` on is present and each node on the way is a mapping.
pub open spec fn get_at_path(d: YamlView, level: int) -> Option<YamlView>
    decreases 3 - level,
{
    if level >= 3 {
        Some(d)
    } else {
        match d {
            YamlView::Mapping(m) => {
                let j = vm_index(m, path_key(level));
                if j == -1 {
                    None
                } else {
                    get_at_path(m[j].1, level + 1)
                }
            },
            _ => None,
        }
    }
}

/// The metadata node at the annotation path holds an `annotations` mapping
/// that does not yet carry the policy key.
pub open spec fn annotations_ready(d: YamlView, level: int) -> bool {
    match get_at_path(d, level) {
        Some(meta) => match meta {
            YamlView::Mapping(m) => {
                let j = vm_index(m, annotations_key());
                &&& j != -1
                &&& match m[j].1 {
                    YamlView::Mapping(a) => vm_index(a, policy_key()) == -1,
                    _ => false,
                }
            },
            _ => false,
        },
        None => false,
    }
}

/// The metadata node at the annotation path is a mapping without any
/// `annotations` field.
pub open spec fn annotations_absent(d: YamlView, level: int) -> bool {
    match get_at_path(d, level) {
        Some(meta) => match meta {
            YamlView::Mapping(m) => vm_index(m, annotations_key()) == -1,
            _ => false,
        },
        None => false,
    }
}

/// Remove the policy key from the `annotations` mapping at the end of the
/// annotation path, leaving everything else in place.
pub open spec fn strip_annotation_spec(d: YamlView, level: int) -> Option<YamlView>
    decreases 3 - level,
{
    match d {
        YamlView::Mapping(m) => {
            if level >= 3 {
                let j = vm_index(m, annotations_key());
                if j == -1 {
                    None
                } else {
                    match m[j].1 {
                        YamlView::Mapping(a) => {
                            let p = vm_index(a, policy_key());
                            if p == -1 {
                                None
                            } else {
                                Some(
                                    YamlView::Mapping(
                                        m.update(j, (m[j].0, YamlView::Mapping(a.remove(p)))),
                                    ),
                                )
                            }
                        },
                        _ => None,
                    }
                }
            } else {
                let j = vm_index(m, path_key(level));
                if j == -1 {
                    None
                } else {
                    match strip_annotation_spec(m[j].1, level + 1) {
                        Some(c) => Some(YamlView::Mapping(m.update(j, (m[j].0, c)))),
                        None => None,
                    }
                }
            }
        },
        _ => None,
    }
}

/// Remove the whole `annotations` entry from the metadata node at the end of
/// the annotation path, leaving everything else in place.
pub open spec fn drop_annotations_spec(d: YamlView, level: int) -> Option<YamlView>
    decreases 3 - level,
{
    match d {
        YamlView::Mapping(m) => {
            if level >= 3 {
                let j = vm_index(m, annotations_key());
                if j == -1 {
                    None
                } else {
                    Some(YamlView::Mapping(m.remove(j)))
                }
            } else {
                let j = vm_index(m, path_key(level));
                if j == -1 {
                    None
                } else {
                    match drop_annotations_spec(m[j].1, level + 1) {
                        Some(c) => Some(YamlView::Mapping(m.update(j, (m[j].0, c)))),
                        None => None,
                    }
                }
            }
        },
        _ => None,
    }
}

/// `vm_index` looks only at keys: two entry sequences with the same keys in
/// the same order give the same index for every key.
pub proof fn lemma_vm_index_same_keys(
    m1: Seq<(Seq<char>, YamlView)>,
    m2: Seq<(Seq<char>, YamlView)>,
    k: Seq<char>,
)
    requires
        m1.len() == m2.len(),
        forall|i: int| 0 <= i < m1.len() ==> (#[trigger] m1[i]).0 == m2[i].0,
    ensures
        vm_index(m1, k) == vm_index(m2, k),
    decreases m1.len(),
{
    if m1.len() > 0 {
        lemma_vm_index_same_keys(m1.drop_first(), m2.drop_first(), k);
        assert forall|i: int| 0 <= i < m1.len() - 1 implies (#[trigger] m1.drop_first()[i]).0
            == m2.drop_first()[i].0 by {
            assert(m1[i + 1].0 == m2[i + 1].0);
        }
    }
}

/// Injecting the policy into a document whose metadata already carries an
/// annotations mapping, and then removing the one injected key, restores the
/// document exactly: nothing else was disturbed.
pub proof fn lemma_round_trip_existing(d: YamlView, level: int, policy: Seq<char>)
    requires
        0 <= level <= 3,
        annotations_ready(d, level),
    ensures
        inject_at_spec(d, level, policy) is Ok,
        strip_annotation_spec(inject_at_spec(d, level, policy)->Ok_0, level) == Some(d),
    decreases 3 - level,
{
    let m = d->Mapping_0;
    if level == 3 {
        let j = vm_index(m, annotations_key());
        let a = m[j].1->Mapping_0;
        lemma_vm_index(m, annotations_key());
        lemma_vm_index(a, policy_key());
        let a2 = a.push((policy_key(), YamlView::Str(policy)));
        let m2 = m.update(j, (m[j].0, YamlView::Mapping(a2)));
        assert(inject_at_spec(d, level, policy) == Ok::<YamlView, PolicyError>(
            YamlView::Mapping(m2),
        ));
        lemma_vm_index_same_keys(m2, m, annotations_key());
        lemma_vm_index_at(a2, policy_key(), a.len() as int);
        assert(a2.remove(a.len() as int) =~= a);
        assert(m2.update(j, (m2[j].0, YamlView::Mapping(a))) =~= m);
    } else {
        let j = vm_index(m, path_key(level));
        lemma_vm_index(m, path_key(level));
        lemma_round_trip_existing(m[j].1, level + 1, policy);
        let c = inject_at_spec(m[j].1, level + 1, policy)->Ok_0;
        let m2 = m.update(j, (m[j].0, c));
        lemma_vm_index_same_keys(m2, m, path_key(level));
        assert(m2.update(j, (m2[j].0, m[j].1)) =~= m);
    }
}

/// Injecting the policy into a document whose metadata has no annotations
/// field, and then removing the one created `annotations` entry, restores the
/// document exactly.
pub proof fn lemma_round_trip_created(d: YamlView, level: int, policy: Seq<char>)
    requires
        0 <= level <= 3,
        annotations_absent(d, level),
    ensures
        inject_at_spec(d, level, policy) is Ok,
        drop_annotations_spec(inject_at_spec(d, level, policy)->Ok_0, level) == Some(d),
    decreases 3 - level,
{
    let m = d->Mapping_0;
    if level == 3 {
        let j = vm_index(m, annotations_key());
        lemma_vm_index(m, annotations_key());
        let entry = (
            annotations_key(),
            YamlView::Mapping(seq![(policy_key(), YamlView::Str(policy))]),
        );
        let m2 = m.push(entry);
        lemma_vm_index_at(m2, annotations_key(), m.len() as int);
        assert(m2.remove(m.len() as int) =~= m);
    } else {
        let j = vm_index(m, path_key(level));
        lemma_vm_index(m, path_key(level));
        lemma_round_trip_created(m[j].1, level + 1, policy);
        let c = inject_at_spec(m[j].1, level + 1, policy)->Ok_0;
        let m2 = m.update(j, (m[j].0, c));
        lemma_vm_index_same_keys(m2, m, path_key(level));
        assert(m2.update(j, (m2[j].0, m[j].1)) =~= m);
    }
}

/// Injecting the same policy a second time changes nothing: for a given path
/// and value, the annotator is idempotent.
pub proof fn lemma_inject_idempotent(d: YamlView, level: int, policy: Seq<char>)
    requires
        0 <= level <= 3,
        inject_at_spec(d, level, policy) is Ok,
    ensures
        inject_at_spec(inject_at_spec(d, level, policy)->Ok_0, level, policy) == inject_at_spec(
            d,
            level,
            policy,
        ),
    decreases 3 - level,
{
    let m = d->Mapping_0;
    if level == 3 {
        let j = vm_index(m, annotations_key());
        lemma_vm_index(m, annotations_key());
        if j == -1 {
            let a = seq![(policy_key(), YamlView::Str(policy))];
            let entry = (annotations_key(), YamlView::Mapping(a));
            let m2 = m.push(entry);
            lemma_vm_index_at(m2, annotations_key(), m.len() as int);
            lemma_vm_index_at(a, policy_key(), 0);
            assert(vm_set(a, policy_key(), YamlView::Str(policy)) =~= a);
            assert(m2.update(
                m.len() as int,
                (m2[m.len() as int].0, YamlView::Mapping(vm_set(a, policy_key(), YamlView::Str(policy)))),
            ) =~= m2);
        } else {
            let a = m[j].1->Mapping_0;
            lemma_vm_index(a, policy_key());
            let p = vm_index(a, policy_key());
            let a2 = vm_set(a, policy_key(), YamlView::Str(policy));
            let m2 = m.update(j, (m[j].0, YamlView::Mapping(a2)));
            lemma_vm_index_same_keys(m2, m, annotations_key());
            let p2: int = if p == -1 {
                a.len() as int
            } else {
                p
            };
            if p == -1 {
                lemma_vm_index_at(a2, policy_key(), p2);
            } else {
                lemma_vm_index_same_keys(a2, a, policy_key());
            }
            assert(vm_index(a2, policy_key()) == p2);
            assert(a2[p2].1 == YamlView::Str(policy));
            assert(vm_set(a2, policy_key(), YamlView::Str(policy)) =~= a2);
            assert(m2.update(j, (m2[j].0, YamlView::Mapping(a2))) =~= m2);
        }
    } else {
        let j = vm_index(m, path_key(level));
        lemma_vm_index(m, path_key(level));
        lemma_inject_idempotent(m[j].1, level + 1, policy);
        let c = inject_at_spec(m[j].1, level + 1, policy)->Ok_0;
        let m2 = m.update(j, (m[j].0, c));
        lemma_vm_index_same_keys(m2, m, path_key(level));
        assert(m2.update(j, (m2[j].0, c)) =~= m2);
    }
}

/// Every mapping in the document, at any depth, has pairwise distinct keys.
/// A well-formed manifest satisfies this; it is what makes re-emission through
/// an insertion-ordered mapping faithful.
pub open spec fn keys_unique(d: YamlView) -> bool
    decreases d,
{
    match d {
        YamlView::Sequence(xs) => forall|i: int|
            0 <= i < xs.len() ==> keys_unique(#[trigger] xs[i]),
        YamlView::Mapping(m) => {
            &&& forall|i: int, j: int|
                0 <= i < j < m.len() ==> (#[trigger] m[i]).0 != (#[trigger] m[j]).0
            &&& forall|i: int| 0 <= i < m.len() ==> keys_unique((#[trigger] m[i]).1)
        },
        _ => true,
    }
}

/// Injection never duplicates a key: a document whose mappings all have
/// distinct keys keeps that shape.
pub proof fn lemma_inject_keeps_keys_unique(d: YamlView, level: int, policy: Seq<char>)
    requires
        keys_unique(d),
        inject_at_spec(d, level, policy) is Ok,
        0 <= level <= 3,
    ensures
        keys_unique(inject_at_spec(d, level, policy)->Ok_0),
    decreases 3 - level,
{
    let m = d->Mapping_0;
    if level == 3 {
        let j = vm_index(m, annotations_key());
        lemma_vm_index(m, annotations_key());
        if j == -1 {
            let entry = (
                annotations_key(),
                YamlView::Mapping(seq![(policy_key(), YamlView::Str(policy))]),
            );
            let m2 = m.push(entry);
            assert(keys_unique(entry.1)) by {
                assert(keys_unique(YamlView::Str(policy)));
            }
            assert forall|i: int| 0 <= i < m2.len() implies keys_unique((#[trigger] m2[i]).1) by {
                if i < m.len() {
                    assert(m2[i] == m[i]);
                } else {
                    assert(m2[i] == entry);
                }
            }
        } else {
            assert(keys_unique(m[j].1));
            let a = m[j].1->Mapping_0;
            assert(keys_unique(YamlView::Mapping(a)));
            lemma_vm_index(a, policy_key());
            let p = vm_index(a, policy_key());
            let a2 = vm_set(a, policy_key(), YamlView::Str(policy));
            assert(keys_unique(YamlView::Str(policy)));
            assert forall|i: int| 0 <= i < a2.len() implies keys_unique((#[trigger] a2[i]).1) by {
                if p == -1 {
                    if i < a.len() {
                        assert(a2[i] == a[i]);
                        assert(keys_unique(a[i].1));
                    } else {
                        assert(a2[i].1 == YamlView::Str(policy));
                    }
                } else {
                    if i != p {
                        assert(a2[i] == a[i]);
                        assert(keys_unique(a[i].1));
                    } else {
                        assert(a2[i].1 == YamlView::Str(policy));
                    }
                }
            }
            assert forall|i1: int, i2: int|
                0 <= i1 < i2 < a2.len() implies (#[trigger] a2[i1]).0 != (#[trigger] a2[i2]).0 by {
                if p == -1 {
                    if i2 < a.len() {
                        assert(a2[i1] == a[i1] && a2[i2] == a[i2]);
                    } else {
                        assert(a2[i1] == a[i1] && a2[i2].0 == policy_key());
                    }
                } else {
                    assert(a2[i1].0 == a[i1].0 && a2[i2].0 == a[i2].0);
                }
            }
            assert(keys_unique(YamlView::Mapping(a2)));
            let m2 = m.update(j, (m[j].0, YamlView::Mapping(a2)));
            assert forall|i: int| 0 <= i < m2.len() implies keys_unique((#[trigger] m2[i]).1) by {
                if i != j {
                    assert(m2[i] == m[i]);
                    assert(keys_unique(m[i].1));
                } else {
                    assert(m2[i].1 == YamlView::Mapping(a2));
                }
            }
            assert forall|i1: int, i2: int|
                0 <= i1 < i2 < m2.len() implies (#[trigger] m2[i1]).0 != (#[trigger] m2[i2]).0 by {
                assert(m2[i1].0 == m[i1].0 && m2[i2].0 == m[i2].0);
            }
        }
    } else {
        let j = vm_index(m, path_key(level));
        lemma_vm_index(m, path_key(level));
        lemma_inject_keeps_keys_unique(m[j].1, level + 1, policy);
        let c = inject_at_spec(m[j].1, level + 1, policy)->Ok_0;
        let m2 = m.update(j, (m[j].0, c));
        assert forall|i: int| 0 <= i < m2.len() implies keys_unique((#[trigger] m2[i]).1) by {
            if i != j {
                assert(m2[i] == m[i]);
            }
        }
    }
}

/// A label selector: the match-labels constraint a workload uses to adopt
/// its pods.
#[allow(non_snake_case)]
pub struct LabelSelector {
    pub matchLabels: Option<Vec<(String, String)>>,
}

/// The uniform operation set every manifest kind offers, so that one policy
/// generator can work over any of them.  Each kind keeps its own knowledge of
/// where the pod template sits in the document; nothing of that leaks out.
pub trait K8sResource: Sized {
    /// The retained raw document.
    spec fn doc_view(&self) -> YamlView;

    /// The single pre-existing sandbox this manifest attaches to, when its
    /// kind has one; templated, multi-instance kinds have none.
    spec fn spec_sandbox_name(&self) -> Option<Seq<char>>;

    /// The manifest's logical namespace.
    spec fn spec_namespace(&self) -> Seq<char>;

    /// The containers subject to policy, in manifest-declared order.
    spec fn spec_containers(&self) -> Seq<Container>;

    /// The declared volume section, if any; absence is not an empty list.
    spec fn spec_volumes(&self) -> Option<Seq<Volume>>;

    /// The pod-level annotations, if any; absence is distinct from an empty
    /// mapping.
    spec fn spec_annotations(&self) -> Option<Seq<(Seq<char>, Seq<char>)>>;

    /// Whether the sandboxed containers share the host's network namespace.
    spec fn spec_host_network(&self) -> bool;

    /// The two instances hold the same typed schema: every field of the typed
    /// projection, read or not by a policy accessor, has the same value.  The
    /// retained raw document is the one part of an instance outside it, so
    /// the controlled mutation points can capture or re-stamp the document
    /// while this predicate says the schema itself was left alone.
    spec fn same_schema(&self, other: &Self) -> bool;

    /// Capture the raw document for the later round trip, touching nothing
    /// else: the typed schema is left exactly as parsed, so the state after
    /// the call depends only on the state before it and on the document, not
    /// on either flag.  Resolving image references through a remote registry
    /// (optionally cached, under `use_cache`) is the caller's asynchronous
    /// step; it never leaves a half-resolved manifest behind.  Unsupported
    /// fields are the caller's diagnostic to raise unless
    /// `silent_unsupported_fields` asks otherwise.
    fn init(&mut self, use_cache: bool, doc_mapping: YamlValue, silent_unsupported_fields: bool)
        ensures
            final(self).doc_view() == doc_mapping@,
            final(self).same_schema(old(self)),
            final(self).spec_sandbox_name() == old(self).spec_sandbox_name(),
            final(self).spec_namespace() == old(self).spec_namespace(),
            final(self).spec_containers() == old(self).spec_containers(),
            final(self).spec_volumes() == old(self).spec_volumes(),
            final(self).spec_annotations() == old(self).spec_annotations(),
            final(self).spec_host_network() == old(self).spec_host_network(),
    ;

    fn get_sandbox_name(&self) -> (r: Option<String>)
        ensures
            crate::opt_str_view(r) == self.spec_sandbox_name(),
    ;

    fn get_namespace(&self) -> (r: String)
        ensures
            r@ == self.spec_namespace(),
    ;

    /// Append the mounts and storages this manifest's volume declarations
    /// imply for `container`.  A manifest without volumes appends nothing,
    /// which is not an error.
    fn get_container_mounts_and_storages(
        &self,
        policy_mounts: &mut Vec<KataMount>,
        storages: &mut Vec<SerializedStorage>,
        container: &Container,
        agent_policy: &AgentPolicy,
    )
        ensures
            mounts_view(final(policy_mounts)@) == mounts_view(old(policy_mounts)@) + mounts_for(
                self.spec_volumes(),
                *container,
            ),
            storages_view(final(storages)@) == storages_view(old(storages)@) + storages_for(
                self.spec_volumes(),
                *container,
            ),
    ;

    /// Inject the policy into the retained document at the kind's annotation
    /// path and render the whole document as text, leaving every other field
    /// of the document — and the whole typed schema — exactly as it was.  A
    /// document without the path is refused whole: no half-annotated manifest
    /// is ever emitted.
    fn serialize(&mut self, policy: &str) -> (r: Result<String, PolicyError>)
        ensures
            final(self).same_schema(old(self)),
            match r {
                Ok(s) => {
                    &&& inject_at_spec(old(self).doc_view(), 0, policy@) == Ok::<
                        YamlView,
                        PolicyError,
                    >(final(self).doc_view())
                    &&& (keys_unique(final(self).doc_view()) ==> s@ == yaml_text_of(
                        final(self).doc_view(),
                    ))
                    &&& (keys_unique(old(self).doc_view()) ==> keys_unique(
                        final(self).doc_view(),
                    ))
                },
                Err(e) => {
                    &&& inject_at_spec(old(self).doc_view(), 0, policy@) == Err::<
                        YamlView,
                        PolicyError,
                    >(e)
                    &&& final(self).doc_view() == old(self).doc_view()
                },
            },
            final(self).spec_sandbox_name() == old(self).spec_sandbox_name(),
            final(self).spec_namespace() == old(self).spec_namespace(),
            final(self).spec_containers() == old(self).spec_containers(),
            final(self).spec_volumes() == old(self).spec_volumes(),
            final(self).spec_annotations() == old(self).spec_annotations(),
            final(self).spec_host_network() == old(self).spec_host_network(),
    ;

    fn get_containers(&self) -> (r: &Vec<Container>)
        ensures
            r@ == self.spec_containers(),
    ;

    fn get_annotations(&self) -> (r: Option<Vec<(String, String)>>)
        ensures
            crate::opt_pairs_view(r) == self.spec_annotations(),
    ;

    fn use_host_network(&self) -> (r: bool)
        ensures
            r == self.spec_host_network(),
    ;
}

/// Decide, without touching the document, whether the annotation path can be
/// injected into: the exact success and failure conditions of `inject_at`,
/// for every policy text.
pub fn injectable_check(v: &YamlValue, level: usize) -> (r: Result<(), PolicyError>)
    requires
        level <= 3,
    ensures
        match r {
            Ok(_) => forall|p: Seq<char>|
                (#[trigger] inject_at_spec(v@, level as int, p)) is Ok,
            Err(e) => forall|p: Seq<char>|
                (#[trigger] inject_at_spec(v@, level as int, p)) == Err::<YamlView, PolicyError>(
                    e,
                ),
        },
    decreases 3 - level,
{
    let ghost v0 = *v;
    if level == 3 {
        match v {
            YamlValue::Mapping(es) => {
                proof {
                    lemma_map_view(v0->Mapping_0);
                }
                let ghost m = map_view(es@);
                match find_key(es, "annotations") {
                    Some(i) => {
                        match &es[i].1 {
                            YamlValue::Mapping(_) => {
                                proof {
                                    assert forall|p: Seq<char>|
                                        (#[trigger] inject_at_spec(v0@, 3, p)) is Ok by {
                                        assert(vm_index(m, annotations_key()) == i as int);
                                        assert(m[i as int].1 == view_of(es@[i as int].1));
                                        assert(view_of(es@[i as int].1) is Mapping);
                                    }
                                }
                                Ok(())
                            },
                            _ => {
                                proof {
                                    assert forall|p: Seq<char>|
                                        (#[trigger] inject_at_spec(v0@, 3, p)) == Err::<
                                        YamlView,
                                        PolicyError,
                                    >(PolicyError::InvalidAnnotations) by {
                                        assert(vm_index(m, annotations_key()) == i as int);
                                        assert(m[i as int].1 == view_of(es@[i as int].1));
                                        assert(!(view_of(es@[i as int].1) is Mapping));
                                    }
                                }
                                Err(PolicyError::InvalidAnnotations)
                            },
                        }
                    },
                    None => {
                        proof {
                            assert forall|p: Seq<char>|
                                (#[trigger] inject_at_spec(v0@, 3, p)) is Ok by {
                                assert(vm_index(m, annotations_key()) == -1);
                            }
                        }
                        Ok(())
                    },
                }
            },
            _ => {
                proof {
                    assert(!(v0@ is Mapping));
                }
                Err(PolicyError::TargetNotFound)
            },
        }
    } else {
        match v {
            YamlValue::Mapping(es) => {
                proof {
                    lemma_map_view(v0->Mapping_0);
                }
                match find_key(es, path_key_str(level)) {
                    Some(i) => {
                        let r = injectable_check(&es[i].1, level + 1);
                        proof {
                            let m = map_view(v0->Mapping_0@);
                            assert forall|p: Seq<char>| true implies {
                                let inner = #[trigger] inject_at_spec(
                                    view_of(v0->Mapping_0@[i as int].1),
                                    level as int + 1,
                                    p,
                                );
                                match r {
                                    Ok(_) => inner is Ok,
                                    Err(e) => inner == Err::<YamlView, PolicyError>(e),
                                }
                            } by {
                                assert(inject_at_spec(
                                    (v0->Mapping_0@[i as int].1)@,
                                    (level + 1) as int,
                                    p,
                                ) == inject_at_spec(
                                    view_of(v0->Mapping_0@[i as int].1),
                                    level as int + 1,
                                    p,
                                ));
                            }
                            assert forall|p: Seq<char>|
                                match r {
                                    Ok(_) => (#[trigger] inject_at_spec(
                                        v0@,
                                        level as int,
                                        p,
                                    )) is Ok,
                                    Err(e) => inject_at_spec(v0@, level as int, p) == Err::<
                                        YamlView,
                                        PolicyError,
                                    >(e),
                                } by {
                                assert(vm_index(m, path_key(level as int)) == i as int);
                                assert(m[i as int].1 == view_of(v0->Mapping_0@[i as int].1));
                                assert(inject_at_spec(
                                    view_of(v0->Mapping_0@[i as int].1),
                                    level as int + 1,
                                    p,
                                ) == inject_at_spec(m[i as int].1, level as int + 1, p));
                            }
                        }
                        r
                    },
                    None => {
                        proof {
                            let m = map_view(es@);
                            assert(vm_index(m, path_key(level as int)) == -1);
                        }
                        Err(PolicyError::TargetNotFound)
                    },
                }
            },
            _ => {
                proof {
                    assert(!(v0@ is Mapping));
                }
                Err(PolicyError::TargetNotFound)
            },
        }
    }
}

/// Append, for each declared volume the container mounts, the mount and the
/// storage descriptor backing it, in volume order.
#[verifier::loop_isolation(false)]
pub fn get_container_mounts_and_storages(
    policy_mounts: &mut Vec<KataMount>,
    storages: &mut Vec<SerializedStorage>,
    container: &Container,
    agent_policy: &AgentPolicy,
    volumes: &Vec<Volume>,
)
    ensures
        mounts_view(final(policy_mounts)@) == mounts_view(old(policy_mounts)@) + mounts_for_vols(
            volumes@,
            *container,
        ),
        storages_view(final(storages)@) == storages_view(old(storages)@) + storages_for_vols(
            volumes@,
            *container,
        ),
{
    proof {
        assert(volumes@.take(0) =~= Seq::<Volume>::empty());
        assert(mounts_view(policy_mounts@) =~= mounts_view(policy_mounts@) + mounts_for_vols(
            volumes@.take(0),
            *container,
        ));
        assert(storages_view(storages@) =~= storages_view(storages@) + storages_for_vols(
            volumes@.take(0),
            *container,
        ));
    }
    let mut i: usize = 0;
    while i < volumes.len()
        invariant
            i <= volumes.len(),
            mounts_view(policy_mounts@) == mounts_view(old(policy_mounts)@) + mounts_for_vols(
                volumes@.take(i as int),
                *container,
            ),
            storages_view(storages@) == storages_view(old(storages)@) + storages_for_vols(
                volumes@.take(i as int),
                *container,
            ),
        decreases volumes.len() - i,
    {
        match container.mount_path(volumes[i].name.as_str()) {
            Some(path) => {
                let s = SerializedStorage {
                    driver: "local".to_owned(),
                    source: volumes[i].name.clone(),
                    mount_point: path.clone(),
                };
                let m = KataMount { destination: path, source: volumes[i].name.clone() };
                policy_mounts.push(m);
                storages.push(s);
            },
            None => {},
        }
        proof {
            let c = *container;
            let vt = volumes@.take(i + 1);
            assert(vt.drop_last() =~= volumes@.take(i as int));
            assert(vt.last() == volumes@[i as int]);
            let tailm = match c.spec_mount_path(volumes@[i as int].name@) {
                Some(p) => seq![(p, volumes@[i as int].name@)],
                None => Seq::<(Seq<char>, Seq<char>)>::empty(),
            };
            assert(mounts_for_vols(vt, c) == mounts_for_vols(volumes@.take(i as int), c) + tailm);
            assert(mounts_view(policy_mounts@) =~= mounts_view(old(policy_mounts)@)
                + mounts_for_vols(volumes@.take(i as int), c) + tailm);
            assert(mounts_view(policy_mounts@) =~= mounts_view(old(policy_mounts)@)
                + mounts_for_vols(vt, c));
            let tails = tailm.map_values(
                |p: (Seq<char>, Seq<char>)| (crate::policy::local_driver(), p.1, p.0),
            );
            assert(storages_for_vols(vt, c) =~= storages_for_vols(volumes@.take(i as int), c)
                + tails);
            assert(storages_view(storages@) =~= storages_view(old(storages)@) + storages_for_vols(
                volumes@.take(i as int),
                c,
            ) + tails);
            assert(storages_view(storages@) =~= storages_view(old(storages)@) + storages_for_vols(
                vt,
                c,
            ));
        }
        i += 1;
    }
    proof {
        assert(volumes@.take(volumes@.len() as int) =~= volumes@);
    }
}

} // verus!
