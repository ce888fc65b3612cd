//! The parts of a container's OCI spec that the sandbox itself sets.

use vstd::prelude::*;

use crate::string_map::StringMap;

verus! {

/// The annotation that holds the id of the CRI sandbox a container belongs to.
pub const SANDBOX_ID_ANNOTATION: &'static str = "io.kubernetes.cri.sandbox-id";

/// The members of an OCI spec other than its annotations.
#[derive(Clone, Debug, PartialEq, Eq)]
pub enum Members {
    /// Those of the default OCI spec.
    Default,
    /// Those in a JSON object.
    Json(Vec<u8>),
}

/// An OCI spec.
pub struct Spec {
    pub annotations: Option<StringMap<String>>,
    pub rest: Members,
}

/// What a spec holds.
pub struct SpecView {
    pub annotations: Option<Map<Seq<char>, Seq<char>>>,
    pub rest: Members,
}

impl View for Spec {
    type V = SpecView;

    open spec fn view(&self) -> SpecView {
        SpecView {
            annotations: match self.annotations {
                Some(map) => Some(map@.map_values(|text: String| text@)),
                None => None,
            },
            rest: self.rest,
        }
    }
}

impl Default for Spec {
    /// The default OCI spec, which has annotations but none in them.
    fn default() -> (res: Self)
        ensures
            res@ == (SpecView { annotations: Some(Map::empty()), rest: Members::Default }),
    {
        let annotations: StringMap<String> = StringMap::new();
        assert(annotations@.map_values(|text: String| text@) =~= Map::empty());
        Spec { annotations: Some(annotations), rest: Members::Default }
    }
}

/// The spec, or else the default one, of a container that belongs to the CRI sandbox.
/// The id of the sandbox is its only annotation.
pub fn with_cri_sandbox(spec: Option<Spec>, id: String) -> (res: Spec)
    ensures
        res@.annotations == Some(
            Map::<Seq<char>, Seq<char>>::empty().insert(SANDBOX_ID_ANNOTATION@, id@),
        ),
        res@.rest == match spec {
            Some(s) => s@.rest,
            None => Members::Default,
        },
{
    let mut s = match spec {
        Some(s) => s,
        None => Spec::default(),
    };
    let mut annotations: StringMap<String> = StringMap::new();
    annotations.insert(SANDBOX_ID_ANNOTATION.to_owned(), id);
    proof {
        assert(annotations@.map_values(|text: String| text@) =~= Map::<
            Seq<char>,
            Seq<char>,
        >::empty().insert(SANDBOX_ID_ANNOTATION@, id@));
    }
    s.annotations = Some(annotations);
    s
}

} // verus!
