use vstd::prelude::*;

use crate::pod::{Container, Volume};
use crate::yaml::K8sResource;

verus! {

/// Relies on `String::push_str`: appends the characters of `other`.
pub assume_specification[ String::push_str ](s: &mut String, other: &str)
    ensures
        final(s)@ == old(s)@ + other@,
;

/// A mount handed to the sandbox runtime for one container.
pub struct KataMount {
    pub destination: String,
    pub source: String,
}

/// A storage descriptor backing such a mount.
pub struct SerializedStorage {
    pub driver: String,
    pub source: String,
    pub mount_point: String,
}

/// The driver under which a manifest-declared volume is exposed.
pub open spec fn local_driver() -> Seq<char> {
    "local"@
}

/// Mounts as (destination, source) pairs.
pub open spec fn mounts_view(ms: Seq<KataMount>) -> Seq<(Seq<char>, Seq<char>)> {
    Seq::new(ms.len(), |i: int| (ms[i].destination@, ms[i].source@))
}

/// Storages as (driver, source, mount point) triples.
pub open spec fn storages_view(ss: Seq<SerializedStorage>) -> Seq<(Seq<char>, Seq<char>, Seq<char>)> {
    Seq::new(ss.len(), |i: int| (ss[i].driver@, ss[i].source@, ss[i].mount_point@))
}

/// The mounts a volume list implies for one container: one (path, volume)
/// pair per declared volume the container mounts, in volume order.
pub open spec fn mounts_for_vols(vs: Seq<Volume>, c: Container) -> Seq<(Seq<char>, Seq<char>)>
    decreases vs.len(),
{
    if vs.len() == 0 {
        Seq::empty()
    } else {
        mounts_for_vols(vs.drop_last(), c) + match c.spec_mount_path(vs.last().name@) {
            Some(p) => seq![(p, vs.last().name@)],
            None => Seq::empty(),
        }
    }
}

/// The storages backing those mounts, one per pair, under the local driver.
pub open spec fn storages_for_vols(vs: Seq<Volume>, c: Container) -> Seq<
    (Seq<char>, Seq<char>, Seq<char>),
> {
    mounts_for_vols(vs, c).map_values(|p: (Seq<char>, Seq<char>)| (local_driver(), p.1, p.0))
}

/// The mounts an optional volume section implies: a manifest without volumes
/// contributes nothing.
pub open spec fn mounts_for(vols: Option<Seq<Volume>>, c: Container) -> Seq<
    (Seq<char>, Seq<char>),
> {
    match vols {
        Some(vs) => mounts_for_vols(vs, c),
        None => Seq::empty(),
    }
}

/// The storages an optional volume section implies.
pub open spec fn storages_for(vols: Option<Seq<Volume>>, c: Container) -> Seq<
    (Seq<char>, Seq<char>, Seq<char>),
> {
    match vols {
        Some(vs) => storages_for_vols(vs, c),
        None => Seq::empty(),
    }
}

/// One line per mount of a container.
pub open spec fn mounts_text(ms: Seq<(Seq<char>, Seq<char>)>) -> Seq<char>
    decreases ms.len(),
{
    if ms.len() == 0 {
        Seq::empty()
    } else {
        mounts_text(ms.drop_last()) + "  mount "@ + ms.last().0 + " from "@ + ms.last().1 + "\n"@
    }
}

/// One line per storage of a container.
pub open spec fn storages_text(ss: Seq<(Seq<char>, Seq<char>, Seq<char>)>) -> Seq<char>
    decreases ss.len(),
{
    if ss.len() == 0 {
        Seq::empty()
    } else {
        storages_text(ss.drop_last()) + "  storage "@ + ss.last().0 + " at "@ + ss.last().2
            + "\n"@
    }
}

/// The policy paragraph of one container: its identity, then its mounts and
/// the storages backing them.
pub open spec fn container_text(c: Container, vols: Option<Seq<Volume>>) -> Seq<char> {
    "- name="@ + c.name@ + " image="@ + c.image@ + "\n"@ + mounts_text(mounts_for(vols, c))
        + storages_text(storages_for(vols, c))
}

/// The container paragraphs, in manifest-declared order.
pub open spec fn containers_text(cs: Seq<Container>, vols: Option<Seq<Volume>>) -> Seq<char>
    decreases cs.len(),
{
    if cs.len() == 0 {
        Seq::empty()
    } else {
        containers_text(cs.drop_last(), vols) + container_text(cs.last(), vols)
    }
}

/// The host-network line: an undeclared flag reads as false.
pub open spec fn host_network_text(b: bool) -> Seq<char> {
    if b {
        "hostNetwork: true\n"@
    } else {
        "hostNetwork: false\n"@
    }
}

/// One line per pod-level annotation already on the manifest; an absent
/// annotation section is reported as such, distinct from an empty one.
pub open spec fn ann_entries_text(m: Seq<(Seq<char>, Seq<char>)>) -> Seq<char>
    decreases m.len(),
{
    if m.len() == 0 {
        Seq::empty()
    } else {
        ann_entries_text(m.drop_last()) + "  "@ + m.last().0 + "="@ + m.last().1 + "\n"@
    }
}

/// The annotations paragraph.
pub open spec fn annotations_text(a: Option<Seq<(Seq<char>, Seq<char>)>>) -> Seq<char> {
    match a {
        None => "annotations: none\n"@,
        Some(m) => "annotations:\n"@ + ann_entries_text(m),
    }
}

/// The whole policy text: a deterministic function of the containers (in
/// declared order), their mounts and storages implied by the volume section,
/// the host-network flag, and the pod-level annotations.
pub open spec fn policy_text(
    cs: Seq<Container>,
    vols: Option<Seq<Volume>>,
    host_network: bool,
    anns: Option<Seq<(Seq<char>, Seq<char>)>>,
) -> Seq<char> {
    "containers:\n"@ + containers_text(cs, vols) + host_network_text(host_network)
        + annotations_text(anns)
}

/// The policy generator: derives the policy text from the normalized view a
/// resource exposes through the workload interface.
pub struct AgentPolicy {}

impl AgentPolicy {
    /// Generate the policy for a resource from its observable surface alone.
    #[verifier::loop_isolation(false)]
    #[verifier::rlimit(60)]
    pub fn generate_policy<R: K8sResource>(&self, resource: &R) -> (r: String)
        ensures
            r@ == policy_text(
                resource.spec_containers(),
                resource.spec_volumes(),
                resource.spec_host_network(),
                resource.spec_annotations(),
            ),
    {
        let ghost vols = resource.spec_volumes();
        let mut out = String::new();
        out.push_str("containers:\n");
        let cs = resource.get_containers();
        let mut i: usize = 0;
        while i < cs.len()
            invariant
                i <= cs.len(),
                cs@ == resource.spec_containers(),
                out@ == "containers:\n"@ + containers_text(cs@.take(i as int), vols),
            decreases cs.len() - i,
        {
            out.push_str("- name=");
            out.push_str(cs[i].name.as_str());
            out.push_str(" image=");
            out.push_str(cs[i].image.as_str());
            out.push_str("\n");
            let mut mounts: Vec<KataMount> = Vec::new();
            let mut storages: Vec<SerializedStorage> = Vec::new();
            resource.get_container_mounts_and_storages(&mut mounts, &mut storages, &cs[i], self);
            let ghost mv = mounts_for(vols, cs@[i as int]);
            let ghost base = out@;
            let mut j: usize = 0;
            while j < mounts.len()
                invariant
                    j <= mounts.len(),
                    mounts_view(mounts@) == mv,
                    out@ == base + mounts_text(mv.take(j as int)),
                decreases mounts.len() - j,
            {
                out.push_str("  mount ");
                out.push_str(mounts[j].destination.as_str());
                out.push_str(" from ");
                out.push_str(mounts[j].source.as_str());
                out.push_str("\n");
                proof {
                    assert(mv.take(j + 1).drop_last() =~= mv.take(j as int));
                    assert(mv.take(j + 1).last() == (mounts@[j as int].destination@, mounts@[
                        j as int].source@));
                    assert(out@ =~= base + mounts_text(mv.take(j + 1)));
                }
                j += 1;
            }
            proof {
                assert(mv.take(mv.len() as int) =~= mv);
            }
            let ghost sv = storages_for(vols, cs@[i as int]);
            let ghost base2 = out@;
            let mut k: usize = 0;
            while k < storages.len()
                invariant
                    k <= storages.len(),
                    storages_view(storages@) == sv,
                    out@ == base2 + storages_text(sv.take(k as int)),
                decreases storages.len() - k,
            {
                out.push_str("  storage ");
                out.push_str(storages[k].driver.as_str());
                out.push_str(" at ");
                out.push_str(storages[k].mount_point.as_str());
                out.push_str("\n");
                proof {
                    assert(sv.take(k + 1).drop_last() =~= sv.take(k as int));
                    assert(sv.take(k + 1).last() == (storages@[k as int].driver@, storages@[
                        k as int].source@, storages@[k as int].mount_point@));
                    assert(out@ =~= base2 + storages_text(sv.take(k + 1)));
                }
                k += 1;
            }
            proof {
                assert(sv.take(sv.len() as int) =~= sv);
                assert(cs@.take(i + 1).drop_last() =~= cs@.take(i as int));
                assert(cs@.take(i + 1).last() == cs@[i as int]);
                assert(out@ =~= "containers:\n"@ + containers_text(cs@.take(i + 1), vols));
            }
            i += 1;
        }
        proof {
            assert(cs@.take(cs@.len() as int) =~= cs@);
        }
        if resource.use_host_network() {
            out.push_str("hostNetwork: true\n");
        } else {
            out.push_str("hostNetwork: false\n");
        }
        match resource.get_annotations() {
            None => {
                out.push_str("annotations: none\n");
            },
            Some(anns) => {
                out.push_str("annotations:\n");
                let ghost av = crate::pairs_view(anns@);
                let ghost base3 = out@;
                let mut t: usize = 0;
                while t < anns.len()
                    invariant
                        t <= anns.len(),
                        av == crate::pairs_view(anns@),
                        out@ == base3 + ann_entries_text(av.take(t as int)),
                    decreases anns.len() - t,
                {
                    out.push_str("  ");
                    out.push_str(anns[t].0.as_str());
                    out.push_str("=");
                    out.push_str(anns[t].1.as_str());
                    out.push_str("\n");
                    proof {
                        assert(av.take(t + 1).drop_last() =~= av.take(t as int));
                        assert(av.take(t + 1).last() == (anns@[t as int].0@, anns@[t as int].1@));
                        assert(out@ =~= base3 + ann_entries_text(av.take(t + 1)));
                    }
                    t += 1;
                }
                proof {
                    assert(av.take(av.len() as int) =~= av);
                }
            },
        }
        out
    }
}

} // verus!
