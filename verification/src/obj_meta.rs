use vstd::prelude::*;

verus! {

/// Identifying metadata of a manifest or of its pod template.
pub struct ObjectMeta {
    pub name: Option<String>,
    pub namespace: Option<String>,
    pub annotations: Option<Vec<(String, String)>>,
}

impl ObjectMeta {
    /// The logical namespace: the declared one, or the cluster default when
    /// the manifest declares none.
    pub open spec fn spec_namespace(&self) -> Seq<char> {
        match self.namespace {
            Some(ns) => ns@,
            None => "default"@,
        }
    }

    pub fn get_namespace(&self) -> (r: String)
        ensures
            r@ == self.spec_namespace(),
    {
        match &self.namespace {
            Some(ns) => ns.clone(),
            None => "default".to_owned(),
        }
    }
}

} // verus!
