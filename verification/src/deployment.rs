#![allow(non_snake_case)]

use vstd::prelude::*;

use crate::obj_meta::ObjectMeta;
use crate::pod::{Container, Volume};
use crate::pod_template::PodTemplateSpec;
use crate::policy::{mounts_for, mounts_view, storages_for, storages_view, AgentPolicy, KataMount,
    SerializedStorage};
use crate::render::render_yaml;
use crate::yaml;
use crate::yaml::{inject_at, inject_at_spec, injectable_check, K8sResource, LabelSelector,
    PolicyError, YamlValue, YamlView};

verus! {

/// A replicated workload manifest: a typed projection of the fields the
/// policy generator needs, together with the verbatim raw document kept for
/// re-emission.
pub struct Deployment {
    pub apiVersion: String,
    pub kind: String,
    pub metadata: ObjectMeta,
    pub spec: DeploymentSpec,
    pub doc_mapping: YamlValue,
}

/// The spec section of a replicated workload.  An optional field that was
/// absent in the source document stays absent: absence is distinct from an
/// explicit zero or empty value and must round-trip.
pub struct DeploymentSpec {
    pub replicas: Option<i32>,
    pub selector: Option<LabelSelector>,
    pub strategy: Option<DeploymentStrategy>,
    pub template: PodTemplateSpec,
}

/// The declarative update strategy of a replicated workload.
pub struct DeploymentStrategy {
    pub strategy_type: Option<String>,
    pub rollingUpdate: Option<RollingUpdateDeployment>,
}

/// The surge and unavailability bounds of a rolling update.
pub struct RollingUpdateDeployment {
    pub maxSurge: Option<i32>,
    pub maxUnavailable: Option<i32>,
}

/// Clone an annotation list entry by entry.
#[verifier::loop_isolation(false)]
fn clone_pairs(v: &Vec<(String, String)>) -> (r: Vec<(String, String)>)
    ensures
        r@ == v@,
{
    let mut out: Vec<(String, String)> = Vec::new();
    let mut i: usize = 0;
    while i < v.len()
        invariant
            i <= v.len(),
            out@.len() == i as int,
            forall|j: int| 0 <= j < i ==> out@[j] == v@[j],
        decreases v.len() - i,
    {
        let p = (v[i].0.clone(), v[i].1.clone());
        out.push(p);
        i += 1;
    }
    proof {
        assert(out@ =~= v@);
    }
    out
}

impl Deployment {
    /// Delegate to the policy generator, which pulls its normalized view back
    /// through the workload interface this type implements.
    pub fn generate_policy(&self, agent_policy: &AgentPolicy) -> (r: String)
        ensures
            r@ == crate::policy::policy_text(
                self.spec_containers(),
                self.spec_volumes(),
                self.spec_host_network(),
                self.spec_annotations(),
            ),
    {
        agent_policy.generate_policy(self)
    }
}

impl K8sResource for Deployment {
    open spec fn doc_view(&self) -> YamlView {
        self.doc_mapping@
    }

    /// A replicated workload has no single named sandbox: each replica is its
    /// own sandbox instance, whatever the replica count says.
    open spec fn spec_sandbox_name(&self) -> Option<Seq<char>> {
        None
    }

    open spec fn spec_namespace(&self) -> Seq<char> {
        self.metadata.spec_namespace()
    }

    open spec fn spec_containers(&self) -> Seq<Container> {
        self.spec.template.spec.containers@
    }

    open spec fn spec_volumes(&self) -> Option<Seq<Volume>> {
        match self.spec.template.spec.volumes {
            Some(v) => Some(v@),
            None => None,
        }
    }

    /// The pod template's annotations, not the top-level workload's: they are
    /// what propagates to the instantiated pods.
    open spec fn spec_annotations(&self) -> Option<Seq<(Seq<char>, Seq<char>)>> {
        crate::opt_pairs_view(self.spec.template.metadata.annotations)
    }

    open spec fn spec_host_network(&self) -> bool {
        match self.spec.template.spec.hostNetwork {
            Some(b) => b,
            None => false,
        }
    }

    /// Every field except the retained document: the identifying strings,
    /// both metadata sections, and the whole spec — replica count, selector,
    /// update strategy and pod template, absent options staying absent.
    open spec fn same_schema(&self, other: &Self) -> bool {
        &&& self.apiVersion == other.apiVersion
        &&& self.kind == other.kind
        &&& self.metadata == other.metadata
        &&& self.spec == other.spec
    }

    fn init(&mut self, _use_cache: bool, doc_mapping: YamlValue, _silent_unsupported_fields: bool) {
        self.doc_mapping = doc_mapping;
    }

    fn get_sandbox_name(&self) -> (r: Option<String>) {
        None
    }

    fn get_namespace(&self) -> (r: String) {
        self.metadata.get_namespace()
    }

    fn get_container_mounts_and_storages(
        &self,
        policy_mounts: &mut Vec<KataMount>,
        storages: &mut Vec<SerializedStorage>,
        container: &Container,
        agent_policy: &AgentPolicy,
    ) {
        match &self.spec.template.spec.volumes {
            Some(volumes) => {
                yaml::get_container_mounts_and_storages(
                    policy_mounts,
                    storages,
                    container,
                    agent_policy,
                    volumes,
                );
            },
            None => {
                proof {
                    assert(mounts_view(policy_mounts@) =~= mounts_view(old(policy_mounts)@)
                        + mounts_for(self.spec_volumes(), *container));
                    assert(storages_view(storages@) =~= storages_view(old(storages)@)
                        + storages_for(self.spec_volumes(), *container));
                }
            },
        }
    }

    fn serialize(&mut self, policy: &str) -> (r: Result<String, PolicyError>) {
        match injectable_check(&self.doc_mapping, 0) {
            Err(e) => {
                proof {
                    assert(inject_at_spec(self.doc_mapping@, 0, policy@) == Err::<
                        YamlView,
                        PolicyError,
                    >(e));
                }
                Err(e)
            },
            Ok(_) => {
                let mut doc = YamlValue::Null;
                core::mem::swap(&mut doc, &mut self.doc_mapping);
                match inject_at(doc, 0, policy) {
                    Ok(new_doc) => {
                        proof {
                            if yaml::keys_unique(doc@) {
                                yaml::lemma_inject_keeps_keys_unique(doc@, 0, policy@);
                            }
                        }
                        let s = render_yaml(&new_doc);
                        self.doc_mapping = new_doc;
                        Ok(s)
                    },
                    Err(e) => {
                        proof {
                            assert(inject_at_spec(doc@, 0, policy@) is Ok);
                            assert(false);
                        }
                        Err(e)
                    },
                }
            },
        }
    }

    fn get_containers(&self) -> (r: &Vec<Container>) {
        &self.spec.template.spec.containers
    }

    fn get_annotations(&self) -> (r: Option<Vec<(String, String)>>) {
        match &self.spec.template.metadata.annotations {
            Some(annotations) => Some(clone_pairs(annotations)),
            None => None,
        }
    }

    fn use_host_network(&self) -> (r: bool) {
        match self.spec.template.spec.hostNetwork {
            Some(host_network) => host_network,
            None => false,
        }
    }
}

} // verus!
