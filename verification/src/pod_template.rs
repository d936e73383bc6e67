use vstd::prelude::*;

use crate::obj_meta::ObjectMeta;
use crate::pod::PodSpec;

verus! {

/// The pod template embedded in a workload manifest: the pod-level metadata
/// copied onto every created instance, and the pod spec itself.
pub struct PodTemplateSpec {
    pub metadata: ObjectMeta,
    pub spec: PodSpec,
}

} // verus!
