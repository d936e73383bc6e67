#![allow(non_snake_case)]

use vstd::prelude::*;

use crate::yaml::str_eq;

verus! {

/// One volume declared by a pod spec.
pub struct Volume {
    pub name: String,
}

/// A container's request to mount a declared volume at a path.
pub struct VolumeMount {
    pub name: String,
    pub mountPath: String,
}

/// One container of the pod template.
pub struct Container {
    pub name: String,
    pub image: String,
    pub volumeMounts: Option<Vec<VolumeMount>>,
}

/// The pod-level part of a template: the containers to run, the volumes they
/// may mount, and whether they share the host's network namespace.
pub struct PodSpec {
    pub containers: Vec<Container>,
    pub volumes: Option<Vec<Volume>>,
    pub hostNetwork: Option<bool>,
}

/// Index of the first volume mount naming `vol`, or -1 when the container
/// does not mount that volume.
pub open spec fn mount_index(vms: Seq<VolumeMount>, vol: Seq<char>) -> int
    decreases vms.len(),
{
    if vms.len() == 0 {
        -1
    } else if vms[0].name@ == vol {
        0
    } else {
        let r = mount_index(vms.drop_first(), vol);
        if r == -1 {
            -1
        } else {
            r + 1
        }
    }
}

/// `mount_index` finds the first mount of the volume, and -1 exactly when no
/// mount names it.
pub proof fn lemma_mount_index(vms: Seq<VolumeMount>, vol: Seq<char>)
    ensures
        mount_index(vms, vol) == -1 ==> forall|j: int|
            0 <= j < vms.len() ==> (#[trigger] vms[j]).name@ != vol,
        mount_index(vms, vol) != -1 ==> {
            &&& 0 <= mount_index(vms, vol) < vms.len()
            &&& vms[mount_index(vms, vol)].name@ == vol
            &&& forall|j: int|
                0 <= j < mount_index(vms, vol) ==> (#[trigger] vms[j]).name@ != vol
        },
    decreases vms.len(),
{
    if vms.len() > 0 && vms[0].name@ != vol {
        lemma_mount_index(vms.drop_first(), vol);
        assert forall|j: int| 1 <= j < vms.len() implies vms.drop_first()[j - 1] == vms[j] by {}
    }
}

/// A first mount of the volume determines `mount_index`.
pub proof fn lemma_mount_index_at(vms: Seq<VolumeMount>, vol: Seq<char>, i: int)
    requires
        0 <= i < vms.len(),
        vms[i].name@ == vol,
        forall|j: int| 0 <= j < i ==> (#[trigger] vms[j]).name@ != vol,
    ensures
        mount_index(vms, vol) == i,
    decreases vms.len(),
{
    if i > 0 {
        lemma_mount_index_at(vms.drop_first(), vol, i - 1);
    }
}

impl Container {
    /// The path at which this container mounts the volume named `vol`, going
    /// by the first matching volume mount; nothing when it does not mount it.
    pub open spec fn spec_mount_path(&self, vol: Seq<char>) -> Option<Seq<char>> {
        match self.volumeMounts {
            Some(vms) => {
                let j = mount_index(vms@, vol);
                if j == -1 {
                    None
                } else {
                    Some(vms@[j].mountPath@)
                }
            },
            None => None,
        }
    }

    #[verifier::loop_isolation(false)]
    pub fn mount_path(&self, vol: &str) -> (r: Option<String>)
        ensures
            match r {
                Some(p) => self.spec_mount_path(vol@) == Some(p@),
                None => self.spec_mount_path(vol@) is None,
            },
    {
        match &self.volumeMounts {
            Some(vms) => {
                let mut i: usize = 0;
                while i < vms.len()
                    invariant
                        i <= vms.len(),
                        forall|j: int| 0 <= j < i ==> (#[trigger] vms@[j]).name@ != vol@,
                    decreases vms.len() - i,
                {
                    if str_eq(vms[i].name.as_str(), vol) {
                        proof {
                            lemma_mount_index_at(vms@, vol@, i as int);
                        }
                        return Some(vms[i].mountPath.clone());
                    }
                    i += 1;
                }
                proof {
                    lemma_mount_index(vms@, vol@);
                }
                None
            },
            None => None,
        }
    }
}

} // verus!
