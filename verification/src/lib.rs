use vstd::prelude::*;

pub mod deployment;
pub mod obj_meta;
pub mod pod;
pub mod pod_template;
pub mod policy;
pub mod render;
pub mod yaml;

verus! {

/// An optional owned string, as an optional character sequence.
pub open spec fn opt_str_view(o: Option<String>) -> Option<Seq<char>> {
    match o {
        Some(s) => Some(s@),
        None => None,
    }
}

/// Key/value pairs, as character-sequence pairs.
pub open spec fn pairs_view(s: Seq<(String, String)>) -> Seq<(Seq<char>, Seq<char>)> {
    Seq::new(s.len(), |i: int| (s[i].0@, s[i].1@))
}

/// An optional annotation list, as optional pairs; absence stays absence.
pub open spec fn opt_pairs_view(o: Option<Vec<(String, String)>>) -> Option<
    Seq<(Seq<char>, Seq<char>)>,
> {
    match o {
        Some(v) => Some(pairs_view(v@)),
        None => None,
    }
}

} // verus!
