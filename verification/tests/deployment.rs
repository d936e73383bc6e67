use genpolicy_workload::deployment::{Deployment, DeploymentSpec};
use genpolicy_workload::obj_meta::ObjectMeta;
use genpolicy_workload::pod::{Container, PodSpec, Volume, VolumeMount};
use genpolicy_workload::pod_template::PodTemplateSpec;
use genpolicy_workload::policy::{AgentPolicy, KataMount, SerializedStorage};
use genpolicy_workload::render::render_yaml;
use genpolicy_workload::yaml::{
    inject_at, K8sResource, PolicyError, YamlValue, POLICY_ANNOTATION_KEY,
};

fn s(x: &str) -> String {
    x.to_string()
}

fn mapping(entries: Vec<(&str, YamlValue)>) -> YamlValue {
    YamlValue::Mapping(entries.into_iter().map(|(k, v)| (s(k), v)).collect())
}

fn container(name: &str, image: &str, mounts: Option<Vec<(&str, &str)>>) -> Container {
    Container {
        name: s(name),
        image: s(image),
        volumeMounts: mounts.map(|ms| {
            ms.into_iter()
                .map(|(n, p)| VolumeMount {
                    name: s(n),
                    mountPath: s(p),
                })
                .collect()
        }),
    }
}

fn deployment(
    replicas: Option<i32>,
    containers: Vec<Container>,
    volumes: Option<Vec<&str>>,
    host_network: Option<bool>,
    annotations: Option<Vec<(&str, &str)>>,
    doc: YamlValue,
) -> Deployment {
    Deployment {
        apiVersion: s("apps/v1"),
        kind: s("Deployment"),
        metadata: ObjectMeta {
            name: Some(s("web")),
            namespace: None,
            annotations: None,
        },
        spec: DeploymentSpec {
            replicas,
            selector: None,
            strategy: None,
            template: PodTemplateSpec {
                metadata: ObjectMeta {
                    name: None,
                    namespace: None,
                    annotations: annotations
                        .map(|a| a.into_iter().map(|(k, v)| (s(k), s(v))).collect()),
                },
                spec: PodSpec {
                    containers,
                    volumes: volumes
                        .map(|vs| vs.into_iter().map(|n| Volume { name: s(n) }).collect()),
                    hostNetwork: host_network,
                },
            },
        },
        doc_mapping: doc,
    }
}

/// A full document whose pod template metadata holds the given annotations
/// (or none at all).
fn scenario_doc(annotations: Option<Vec<(&str, &str)>>) -> YamlValue {
    let meta_entries = match annotations {
        None => vec![],
        Some(anns) => vec![(
            "annotations",
            mapping(
                anns.into_iter()
                    .map(|(k, v)| (k, YamlValue::Str(s(v))))
                    .collect(),
            ),
        )],
    };
    mapping(vec![
        ("apiVersion", YamlValue::Str(s("apps/v1"))),
        ("kind", YamlValue::Str(s("Deployment"))),
        ("metadata", mapping(vec![("name", YamlValue::Str(s("web")))])),
        (
            "spec",
            mapping(vec![
                ("replicas", YamlValue::Int(3)),
                (
                    "template",
                    mapping(vec![
                        ("metadata", mapping(meta_entries)),
                        (
                            "spec",
                            mapping(vec![(
                                "containers",
                                YamlValue::Sequence(vec![mapping(vec![
                                    ("name", YamlValue::Str(s("app"))),
                                    ("image", YamlValue::Str(s("img"))),
                                ])]),
                            )]),
                        ),
                    ]),
                ),
            ]),
        ),
    ])
}

#[test]
fn sandbox_name_none_regardless_of_replicas() {
    for replicas in [None, Some(0), Some(1), Some(7)] {
        let d = deployment(replicas, vec![], None, None, None, YamlValue::Null);
        assert!(d.get_sandbox_name().is_none());
    }
}

#[test]
fn containers_order_preserved() {
    let d0 = deployment(None, vec![], None, None, None, YamlValue::Null);
    assert!(d0.get_containers().is_empty());

    let d1 = deployment(
        None,
        vec![container("only", "i", None)],
        None,
        None,
        None,
        YamlValue::Null,
    );
    assert_eq!(d1.get_containers().len(), 1);
    assert_eq!(d1.get_containers()[0].name, "only");

    let d3 = deployment(
        None,
        vec![
            container("a", "i1", None),
            container("b", "i2", None),
            container("c", "i3", None),
        ],
        None,
        None,
        None,
        YamlValue::Null,
    );
    let names: Vec<&str> = d3.get_containers().iter().map(|c| c.name.as_str()).collect();
    assert_eq!(names, vec!["a", "b", "c"]);
}

#[test]
fn host_network_defaults_to_false_when_absent() {
    let d = deployment(None, vec![], None, None, None, YamlValue::Null);
    assert!(!d.use_host_network());
}

#[test]
fn host_network_reads_declared_value() {
    let dt = deployment(None, vec![], None, Some(true), None, YamlValue::Null);
    assert!(dt.use_host_network());
    let df = deployment(None, vec![], None, Some(false), None, YamlValue::Null);
    assert!(!df.use_host_network());
}

#[test]
fn annotations_absent_is_distinct_from_empty() {
    let none = deployment(None, vec![], None, None, None, YamlValue::Null);
    assert!(none.get_annotations().is_none());

    let empty = deployment(None, vec![], None, None, Some(vec![]), YamlValue::Null);
    assert_eq!(empty.get_annotations(), Some(vec![]));
}

#[test]
fn annotations_returns_template_entries() {
    let d = deployment(
        None,
        vec![],
        None,
        None,
        Some(vec![("team", "core"), ("tier", "web")]),
        YamlValue::Null,
    );
    assert_eq!(
        d.get_annotations(),
        Some(vec![(s("team"), s("core")), (s("tier"), s("web"))])
    );
}

#[test]
fn namespace_defaults_when_undeclared() {
    let d = deployment(None, vec![], None, None, None, YamlValue::Null);
    assert_eq!(d.get_namespace(), "default");
}

#[test]
fn namespace_reads_declared_value() {
    let mut d = deployment(None, vec![], None, None, None, YamlValue::Null);
    d.metadata.namespace = Some(s("prod"));
    assert_eq!(d.get_namespace(), "prod");
}

#[test]
fn no_volumes_yield_empty_mounts_and_storages() {
    let d = deployment(
        None,
        vec![container("app", "img", Some(vec![("data", "/data")]))],
        None,
        None,
        None,
        YamlValue::Null,
    );
    let mut mounts: Vec<KataMount> = Vec::new();
    let mut storages: Vec<SerializedStorage> = Vec::new();
    let c = container("app", "img", Some(vec![("data", "/data")]));
    d.get_container_mounts_and_storages(&mut mounts, &mut storages, &c, &AgentPolicy {});
    assert!(mounts.is_empty());
    assert!(storages.is_empty());
}

#[test]
fn declared_volume_is_classified_for_mounting_container() {
    let d = deployment(
        None,
        vec![
            container("app", "img", Some(vec![("data", "/data")])),
            container("side", "img2", None),
        ],
        Some(vec!["data"]),
        None,
        None,
        YamlValue::Null,
    );
    let mut mounts: Vec<KataMount> = Vec::new();
    let mut storages: Vec<SerializedStorage> = Vec::new();
    let c = container("app", "img", Some(vec![("data", "/data")]));
    d.get_container_mounts_and_storages(&mut mounts, &mut storages, &c, &AgentPolicy {});
    assert_eq!(mounts.len(), 1);
    assert_eq!(mounts[0].destination, "/data");
    assert_eq!(mounts[0].source, "data");
    assert_eq!(storages.len(), 1);
    assert_eq!(storages[0].driver, "local");
    assert_eq!(storages[0].source, "data");
    assert_eq!(storages[0].mount_point, "/data");

    let other = container("side", "img2", None);
    let mut m2: Vec<KataMount> = Vec::new();
    let mut s2: Vec<SerializedStorage> = Vec::new();
    d.get_container_mounts_and_storages(&mut m2, &mut s2, &other, &AgentPolicy {});
    assert!(m2.is_empty());
    assert!(s2.is_empty());
}

#[test]
fn generate_policy_concrete_scenario() {
    let d = deployment(
        Some(3),
        vec![
            container("app", "registry/app:1", Some(vec![("data", "/data")])),
            container("sidecar", "registry/side:1", None),
        ],
        Some(vec!["data"]),
        None,
        None,
        scenario_doc(None),
    );
    let text = d.generate_policy(&AgentPolicy {});
    let expected = "containers:\n\
                    - name=app image=registry/app:1\n\
                    \x20 mount /data from data\n\
                    \x20 storage local at /data\n\
                    - name=sidecar image=registry/side:1\n\
                    hostNetwork: false\n\
                    annotations: none\n";
    assert_eq!(text, expected);
}

#[test]
fn serialize_injects_policy_and_keeps_other_fields() {
    let mut d = deployment(
        Some(3),
        vec![container("app", "img", None)],
        None,
        None,
        None,
        scenario_doc(None),
    );
    let out = d.serialize("policy-text").expect("annotation path exists");
    let v: serde_yaml::Value = serde_yaml::from_str(&out).expect("output parses");
    assert_eq!(v["spec"]["replicas"], serde_yaml::Value::Number(3.into()));
    assert_eq!(
        v["spec"]["template"]["metadata"]["annotations"][POLICY_ANNOTATION_KEY],
        serde_yaml::Value::String(s("policy-text"))
    );
    assert_eq!(
        v["spec"]["template"]["spec"]["containers"][0]["name"],
        serde_yaml::Value::String(s("app"))
    );
    assert_eq!(v["apiVersion"], serde_yaml::Value::String(s("apps/v1")));
}

#[test]
fn round_trip_restores_document_after_removing_annotation() {
    let original = render_yaml(&scenario_doc(Some(vec![("team", "core")])));
    let mut d = deployment(
        Some(3),
        vec![container("app", "img", None)],
        None,
        None,
        Some(vec![("team", "core")]),
        scenario_doc(Some(vec![("team", "core")])),
    );
    let out = d.serialize("policy-text").expect("annotation path exists");
    assert_ne!(out, original);
    let mut v: serde_yaml::Value = serde_yaml::from_str(&out).expect("output parses");
    let anns = v["spec"]["template"]["metadata"]["annotations"]
        .as_mapping_mut()
        .expect("annotations mapping");
    assert_eq!(
        anns.get(POLICY_ANNOTATION_KEY),
        Some(&serde_yaml::Value::String(s("policy-text")))
    );
    anns.remove(POLICY_ANNOTATION_KEY);
    let restored = serde_yaml::to_string(&v).expect("renders");
    assert_eq!(restored, original);
}

#[test]
fn serialize_creates_annotations_when_absent() {
    let mut d = deployment(
        Some(3),
        vec![container("app", "img", None)],
        None,
        None,
        None,
        scenario_doc(None),
    );
    let out = d.serialize("p").expect("annotation path exists");
    let v: serde_yaml::Value = serde_yaml::from_str(&out).expect("output parses");
    let anns = v["spec"]["template"]["metadata"]["annotations"]
        .as_mapping()
        .expect("annotations mapping created");
    assert_eq!(anns.len(), 1);
}

#[test]
fn serialize_twice_with_same_policy_yields_same_document() {
    let mut d = deployment(
        Some(3),
        vec![container("app", "img", None)],
        None,
        None,
        None,
        scenario_doc(Some(vec![("team", "core")])),
    );
    let first = d.serialize("policy-text").expect("annotation path exists");
    let second = d.serialize("policy-text").expect("annotation path still exists");
    assert_eq!(first, second);
}

#[test]
fn serialize_fails_when_path_is_absent() {
    let doc = mapping(vec![("metadata", mapping(vec![]))]);
    let mut d = deployment(None, vec![], None, None, None, doc);
    assert_eq!(d.serialize("p"), Err(PolicyError::TargetNotFound));

    let no_template = mapping(vec![("spec", mapping(vec![("replicas", YamlValue::Int(1))]))]);
    let mut d2 = deployment(None, vec![], None, None, None, no_template);
    assert_eq!(d2.serialize("p"), Err(PolicyError::TargetNotFound));
}

#[test]
fn serialize_fails_when_annotations_is_not_a_mapping() {
    let doc = mapping(vec![(
        "spec",
        mapping(vec![(
            "template",
            mapping(vec![(
                "metadata",
                mapping(vec![("annotations", YamlValue::Str(s("oops")))]),
            )]),
        )]),
    )]);
    let mut d = deployment(None, vec![], None, None, None, doc);
    assert_eq!(d.serialize("p"), Err(PolicyError::InvalidAnnotations));
}

#[test]
fn inject_at_appends_annotation_mapping_at_end() {
    let doc = mapping(vec![(
        "spec",
        mapping(vec![(
            "template",
            mapping(vec![("metadata", mapping(vec![("name", YamlValue::Str(s("t")))]))]),
        )]),
    )]);
    let injected = inject_at(doc, 0, "ptext").expect("path exists");
    let expected = mapping(vec![(
        "spec",
        mapping(vec![(
            "template",
            mapping(vec![(
                "metadata",
                mapping(vec![
                    ("name", YamlValue::Str(s("t"))),
                    (
                        "annotations",
                        mapping(vec![(POLICY_ANNOTATION_KEY, YamlValue::Str(s("ptext")))]),
                    ),
                ]),
            )]),
        )]),
    )]);
    assert_eq!(injected, expected);
}

#[test]
fn init_captures_the_raw_document() {
    let mut d = deployment(None, vec![], None, None, None, YamlValue::Null);
    d.init(false, scenario_doc(None), false);
    assert_eq!(d.doc_mapping, scenario_doc(None));
}

#[test]
fn init_leaves_the_typed_schema_unchanged() {
    for silent in [false, true] {
        let mut d = deployment(
            Some(3),
            vec![container("app", "img", None)],
            Some(vec!["data"]),
            Some(false),
            Some(vec![("team", "core")]),
            YamlValue::Null,
        );
        d.init(false, scenario_doc(None), silent);
        assert_eq!(d.apiVersion, "apps/v1");
        assert_eq!(d.kind, "Deployment");
        assert_eq!(d.metadata.name, Some(s("web")));
        assert_eq!(d.spec.replicas, Some(3));
        assert!(d.spec.selector.is_none());
        assert!(d.spec.strategy.is_none());
        assert_eq!(d.spec.template.spec.hostNetwork, Some(false));
        assert_eq!(d.spec.template.spec.containers[0].name, "app");
        assert_eq!(
            d.spec.template.metadata.annotations,
            Some(vec![(s("team"), s("core"))])
        );
    }
}

#[test]
fn render_yaml_emits_the_document_tree() {
    let doc = mapping(vec![
        ("a", YamlValue::Int(1)),
        ("b", YamlValue::Str(s("x"))),
        ("c", YamlValue::Sequence(vec![YamlValue::Bool(true), YamlValue::Null])),
    ]);
    let text = render_yaml(&doc);
    let parsed: serde_yaml::Value = serde_yaml::from_str(&text).expect("parses");
    let mut expected = serde_yaml::Mapping::new();
    expected.insert(
        serde_yaml::Value::String(s("a")),
        serde_yaml::Value::Number(1.into()),
    );
    expected.insert(
        serde_yaml::Value::String(s("b")),
        serde_yaml::Value::String(s("x")),
    );
    expected.insert(
        serde_yaml::Value::String(s("c")),
        serde_yaml::Value::Sequence(vec![
            serde_yaml::Value::Bool(true),
            serde_yaml::Value::Null,
        ]),
    );
    assert_eq!(parsed, serde_yaml::Value::Mapping(expected));
}
