//! Putting a manifest together from what the sources gave.
//!
//! Both strategies end in the same step: each source (a cache entry, an
//! artifact) has given a group of descriptors, nothing, or a failure, and
//! the groups become the manifest. The strategies differ in what a failure
//! means. The walk over the dependency graph passes a failed source over,
//! so that one bad cache entry does not cost the others. The scan of
//! artifacts stops at the first failure, so that no incomplete manifest of
//! a broken build is handed on.

use crate::codec::decode::DecodeError;
use crate::manifest::AssetManifest;
use crate::package::PackageAssets;
use vstd::prelude::*;

verus! {

/// Why a source gave no descriptors.
#[derive(Clone, Copy, Debug, PartialEq, Eq, Structural)]
pub enum AssemblyError {
    /// A cache entry could not be read.
    CacheRead,
    /// Text that should be records is none.
    DescriptorDecode(DecodeError),
    /// An object or archive is malformed.
    ContainerParse,
    /// The marker section of an object holds no valid UTF-8.
    InvalidUtf8,
    /// A file could not be read.
    Io,
}

/// What a failed source means for the manifest.
#[derive(Clone, Copy, Debug, PartialEq, Eq, Structural)]
pub enum FailurePolicy {
    /// The first failure is the result.
    FailFast,
    /// A failed source is passed over.
    FailSoft,
}

/// What one source gave: a group of descriptors, nothing, or a failure.
pub type Outcome = Result<Option<PackageAssets>, AssemblyError>;

/// The groups among `outcomes`, in order.
pub open spec fn groups_of(outcomes: Seq<Outcome>) -> Seq<PackageAssets>
    decreases outcomes.len(),
{
    if outcomes.len() == 0 {
        Seq::empty()
    } else {
        let front = groups_of(outcomes.drop_last());
        match outcomes.last() {
            Ok(Some(group)) => front.push(group),
            _ => front,
        }
    }
}

/// The first failure among `outcomes`.
pub open spec fn first_failure(outcomes: Seq<Outcome>) -> Option<AssemblyError>
    decreases outcomes.len(),
{
    if outcomes.len() == 0 {
        None
    } else {
        match first_failure(outcomes.drop_last()) {
            Some(e) => Some(e),
            None => match outcomes.last() {
                Err(e) => Some(e),
                Ok(_) => None,
            },
        }
    }
}

/// Collects the descriptors of all sources into a manifest.
///
/// The groups of the manifest are the groups that the sources gave, in the
/// order of the sources. Under [`FailurePolicy::FailSoft`] that is the
/// result whatever failed. Under [`FailurePolicy::FailFast`] the first
/// failure is the result, where there is one.
pub fn collect(outcomes: Vec<Outcome>, policy: FailurePolicy) -> (out: Result<
    AssetManifest,
    AssemblyError,
>)
    ensures
        match out {
            Ok(manifest) => manifest.spec_packages() == groups_of(outcomes@) && (policy
                == FailurePolicy::FailFast ==> first_failure(outcomes@) is None),
            Err(e) => policy == FailurePolicy::FailFast && first_failure(outcomes@) == Some(e),
        },
{
    let ghost all = outcomes@;
    let mut groups: Vec<PackageAssets> = Vec::new();
    assert(all.take(0) =~= Seq::<Outcome>::empty());
    for outcome in it: outcomes
        invariant
            it.seq() == all,
            groups@ == groups_of(all.take(it.index())),
            policy == FailurePolicy::FailFast ==> first_failure(all.take(it.index())) is None,
    {
        proof {
            let next = all.take(it.index() + 1);
            assert(next.drop_last() =~= all.take(it.index()));
            assert(next.last() == outcome);
        }
        match outcome {
            Ok(Some(group)) => {
                groups.push(group);
            },
            Ok(None) => {},
            Err(e) => {
                if policy == FailurePolicy::FailFast {
                    proof {
                        lemma_failure_stays(all, it.index() + 1);
                    }
                    return Err(e);
                }
            },
        }
    }
    assert(all.take(all.len() as int) =~= all);
    Ok(AssetManifest::new(groups))
}

/// A failure among the first `k` outcomes is the first failure of all.
pub proof fn lemma_failure_stays(outcomes: Seq<Outcome>, k: int)
    requires
        0 <= k <= outcomes.len(),
        first_failure(outcomes.take(k)) is Some,
    ensures
        first_failure(outcomes) == first_failure(outcomes.take(k)),
    decreases outcomes.len() - k,
{
    if k == outcomes.len() {
        assert(outcomes.take(k) =~= outcomes);
    } else {
        assert(outcomes.drop_last().take(k) =~= outcomes.take(k));
        lemma_failure_stays(outcomes.drop_last(), k);
    }
}

/// Collects the descriptors of those sources that did not fail into a
/// manifest: [`collect`] under [`FailurePolicy::FailSoft`], which has no
/// failure of its own.
pub fn collect_available(outcomes: Vec<Outcome>) -> (out: AssetManifest)
    ensures
        out.spec_packages() == groups_of(outcomes@),
{
    match collect(outcomes, FailurePolicy::FailSoft) {
        Ok(manifest) => manifest,
        Err(_) => {
            assert(false);
            AssetManifest::default()
        },
    }
}

} // verus!
