//! Searching a catalog by name and category, without regard to case.

use crate::catalog::Catalog;
use crate::patch::{Patch, PatchView};
use vstd::prelude::*;

verus! {

/// The lowercase equivalent of a text, as `str::to_lowercase` of the
/// standard library computes it from the text alone.
pub uninterp spec fn lowercase_of(text: Seq<char>) -> Seq<char>;

/// `needle` occurs in `hay` as a run of consecutive characters. The empty
/// text occurs in every text.
pub open spec fn found_in(needle: Seq<char>, hay: Seq<char>) -> bool {
    exists|at: int|
        0 <= at && at + needle.len() <= hay.len() && #[trigger] hay.subrange(
            at,
            at + needle.len(),
        ) == needle
}

/// Calls `str::to_lowercase`, which returns the lowercase equivalent of
/// the text as a new string. The result is only given a name here;
/// nothing is claimed about what it holds.
#[verifier::external_body]
fn lowercase(text: &str) -> (lowered: String)
    ensures
        lowered@ == lowercase_of(text@),
{
    text.to_lowercase()
}

/// Calls `str::contains` with a string pattern, which says whether the
/// pattern matches a sub-slice of the text: that is, whether it occurs in
/// it.
#[verifier::external_body]
fn text_contains(hay: &str, needle: &str) -> (found: bool)
    ensures
        found == found_in(needle@, hay@),
{
    hay.contains(needle)
}

/// The match rule: a patch matches a query when the lowercased query
/// occurs in its lowercased name or in its lowercased category. The
/// empty query matches every patch.
pub open spec fn patch_matches(patch: PatchView, query: Seq<char>) -> bool {
    ||| query.len() == 0
    ||| found_in(lowercase_of(query), lowercase_of(patch.name))
    ||| found_in(lowercase_of(query), lowercase_of(patch.category))
}

/// The match rule as a predicate on patches, for one query.
pub open spec fn matching(query: Seq<char>) -> spec_fn(PatchView) -> bool {
    |patch: PatchView| patch_matches(patch, query)
}

/// The models of a sequence of borrowed patches, in the same order.
pub open spec fn ref_views(patches: Seq<&Patch>) -> Seq<PatchView> {
    patches.map_values(|p: &Patch| p@)
}

/// The match rule on texts that are lowercased already: whether `query`
/// occurs in `name` or in `category`.
pub fn occurs_in_either(query: &str, name: &str, category: &str) -> (hit: bool)
    ensures
        hit == (found_in(query@, name@) || found_in(query@, category@)),
{
    text_contains(category, query) || text_contains(name, query)
}

/// Whether `patch` matches `query`.
pub fn matches_query(patch: &Patch, query: &str) -> (hit: bool)
    ensures
        hit == patch_matches(patch@, query@),
{
    if query.is_empty() {
        return true;
    }
    let lowered_query = lowercase(query);
    let lowered_name = lowercase(patch.name());
    let lowered_category = lowercase(patch.category());
    occurs_in_either(
        lowered_query.as_str(),
        lowered_name.as_str(),
        lowered_category.as_str(),
    )
}

/// The patches of `catalog` that match `query`, in catalog order. The
/// catalog is not changed.
pub fn filter<'a>(catalog: &'a Catalog, query: &str) -> (hits: Vec<&'a Patch>)
    ensures
        ref_views(hits@) == catalog@.filter(matching(query@)),
        query@.len() == 0 ==> ref_views(hits@) == catalog@,
{
    let all = catalog.patches();
    let keep_all = query.is_empty();
    let lowered_query = lowercase(query);
    let mut hits: Vec<&'a Patch> = Vec::new();
    let mut i: usize = 0;
    while i < all.len()
        invariant
            i <= all@.len(),
            all@.len() == catalog@.len(),
            forall|k: int| 0 <= k < all@.len() ==> (#[trigger] all@[k])@ == catalog@[k],
            keep_all == (query@.len() == 0),
            lowered_query@ == lowercase_of(query@),
            ref_views(hits@) == catalog@.take(i as int).filter(matching(query@)),
        decreases all@.len() - i,
    {
        let patch = &all[i];
        let hit = if keep_all {
            true
        } else {
            let lowered_name = lowercase(patch.name());
            let lowered_category = lowercase(patch.category());
            occurs_in_either(
                lowered_query.as_str(),
                lowered_name.as_str(),
                lowered_category.as_str(),
            )
        };
        proof {
            reveal(Seq::filter);
            assert(catalog@.take(i as int + 1).drop_last() =~= catalog@.take(i as int));
        }
        if hit {
            hits.push(patch);
        }
        i += 1;
    }
    proof {
        assert(catalog@.take(all@.len() as int) =~= catalog@);
        if query@.len() == 0 {
            assert(query@ =~= Seq::<char>::empty());
            lemma_empty_query_keeps_all(catalog@);
        }
    }
    hits
}

/// A patch is among the search results exactly when it is in the catalog
/// and matches the query.
pub proof fn lemma_filter_keeps_the_matches(
    catalog: Seq<PatchView>,
    query: Seq<char>,
    patch: PatchView,
)
    ensures
        catalog.filter(matching(query)).contains(patch) <==> catalog.contains(patch)
            && patch_matches(patch, query),
{
    if catalog.filter(matching(query)).contains(patch) {
        catalog.lemma_filter_contains_rev(matching(query), patch);
    }
}

/// The empty query returns the whole catalog, in catalog order.
pub proof fn lemma_empty_query_keeps_all(catalog: Seq<PatchView>)
    ensures
        catalog.filter(matching(Seq::<char>::empty())) == catalog,
    decreases catalog.len(),
{
    reveal(Seq::filter);
    if catalog.len() > 0 {
        lemma_empty_query_keeps_all(catalog.drop_last());
    }
}

} // verus!
