//! Logging in to Kubernetes clusters: which cluster needs a privilege
//! request, and for which role.

use crate::teleport::{is_prod, KubernetesCluster};
use crate::text::{
    chars_of, contains, has_infix, lemma_filter_next, lemma_filter_start, lines, same_str,
    split_lines, string_of, string_views, views_of,
};
use vstd::prelude::*;

verus! {

/// The role to ask for to write to a production cluster; nothing for a
/// cluster that has none.
pub open spec fn cluster_role_of(cluster: Seq<char>) -> Option<Seq<char>> {
    if cluster == "live-prod-eks-blue"@ {
        Some("sudo_prod_eks_cluster"@)
    } else if cluster == "live-usprod-eks-blue"@ {
        Some("sudo_usprod_eks_cluster"@)
    } else {
        None
    }
}

/// Whether a kubectl context is one that Teleport made.
pub open spec fn is_teleport_context(context: Seq<char>) -> bool {
    has_infix(context, "teleport"@) || has_infix(context, "tsh-"@)
}

/// The predicate that picks the contexts that Teleport made.
pub open spec fn picks_teleport_contexts() -> spec_fn(Seq<char>) -> bool {
    |context: Seq<char>| is_teleport_context(context)
}

/// Whether choosing a cluster leads to a privilege request: it is a
/// production cluster that the operator may not use.
pub fn needs_elevation(cluster: &KubernetesCluster) -> (b: bool)
    ensures
        b == (!cluster.accessible && is_prod(cluster.name@)),
{
    !cluster.accessible && contains(&chars_of(cluster.name.as_str()), &chars_of("prod"))
}

/// The role to ask for to write to `cluster`.
pub fn cluster_role(cluster: &str) -> (role: Option<&'static str>)
    ensures
        match role {
            Some(r) => cluster_role_of(cluster@) == Some(r@),
            None => cluster_role_of(cluster@) is None,
        },
{
    if same_str(cluster, "live-prod-eks-blue") {
        Some("sudo_prod_eks_cluster")
    } else if same_str(cluster, "live-usprod-eks-blue") {
        Some("sudo_usprod_eks_cluster")
    } else {
        None
    }
}

/// The contexts, among those that kubectl lists one per line, that a
/// logout deletes.
pub fn teleport_contexts(listing: &str) -> (contexts: Vec<String>)
    ensures
        string_views(contexts@) == lines(listing@).filter(picks_teleport_contexts()),
{
    let ls = split_lines(&chars_of(listing));
    let ghost all = views_of(ls@);
    let teleport = chars_of("teleport");
    let tsh = chars_of("tsh-");
    let mut contexts: Vec<String> = Vec::new();
    let mut i: usize = 0;
    proof {
        lemma_filter_start(all, picks_teleport_contexts());
        assert(string_views(contexts@) =~= Seq::<Seq<char>>::empty());
    }
    while i < ls.len()
        invariant
            i <= ls.len(),
            all == views_of(ls@),
            teleport@ == "teleport"@,
            tsh@ == "tsh-"@,
            string_views(contexts@) == all.take(i as int).filter(picks_teleport_contexts()),
        decreases ls.len() - i,
    {
        let pick = contains(&ls[i], &teleport) || contains(&ls[i], &tsh);
        proof {
            lemma_filter_next(all, i as int, picks_teleport_contexts());
            assert(all[i as int] == ls@[i as int]@);
        }
        if pick {
            let context = string_of(&ls[i]);
            proof {
                assert(string_views(contexts@.push(context)) =~= string_views(contexts@).push(
                    context@,
                ));
            }
            contexts.push(context);
        }
        i += 1;
    }
    assert(all.take(ls.len() as int) =~= all);
    contexts
}

} // verus!
