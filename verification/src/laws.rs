//! Laws of a whole run.
//!
//! A run handles a sequence of non-terminal targets before the sentinel.
//! Each handled target appends its semicolon-split fields to the collector,
//! and the file content is the join of everything accumulated. The proofs
//! here state what that composition yields for every possible run.

use vstd::prelude::*;
use crate::collect::joined;
use crate::request::split_semi;

verus! {

/// The fields a whole run accumulates: handling one more target appends its
/// semicolon-split fields to what the earlier targets left behind, exactly
/// as `Collector::handle_request` ensures for each step.
pub open spec fn fields_of(targets: Seq<Seq<char>>) -> Seq<Seq<char>>
    decreases targets.len(),
{
    if targets.len() == 0 {
        Seq::empty()
    } else {
        fields_of(targets.drop_last()) + split_semi(targets.last())
    }
}

/// Law: a run keeps every field of every non-terminal target, in arrival
/// order — the accumulated output equals the flattened sequence of
/// per-target splits, with no field dropped, reordered or deduplicated.
pub proof fn lemma_fields_of_is_flatten(targets: Seq<Seq<char>>)
    ensures
        fields_of(targets) == targets.map_values(|t: Seq<char>| split_semi(t)).flatten(),
    decreases targets.len(),
{
    let mapped = targets.map_values(|t: Seq<char>| split_semi(t));
    if targets.len() == 0 {
        assert(fields_of(targets) =~= mapped.flatten());
    } else {
        lemma_fields_of_is_flatten(targets.drop_last());
        assert(mapped.drop_last() =~= targets.drop_last().map_values(
            |t: Seq<char>| split_semi(t),
        ));
        mapped.lemma_flatten_and_flatten_alt_are_equivalent();
        mapped.drop_last().lemma_flatten_and_flatten_alt_are_equivalent();
        assert(mapped.flatten_alt() == mapped.drop_last().flatten_alt() + mapped.last());
        assert(fields_of(targets) =~= mapped.flatten());
    }
}

/// Law: joining the fields of two runs one after the other yields the
/// concatenation of what each run joins to on its own.
pub proof fn lemma_joined_append(a: Seq<Seq<char>>, b: Seq<Seq<char>>)
    ensures
        joined(a + b) == joined(a) + joined(b),
    decreases b.len(),
{
    if b.len() == 0 {
        assert(a + b =~= a);
        assert(joined(a) + joined(b) =~= joined(a));
    } else {
        lemma_joined_append(a, b.drop_last());
        assert((a + b).drop_last() =~= a + b.drop_last());
        assert((a + b).last() == b.last());
        assert(joined(a + b) =~= joined(a) + joined(b));
    }
}

/// Law: the blob is empty exactly when zero fragments were collected, and
/// otherwise its first character is a newline.
pub proof fn lemma_joined_shape(frags: Seq<Seq<char>>)
    ensures
        joined(frags).len() == 0 <==> frags.len() == 0,
        frags.len() > 0 ==> joined(frags)[0] == '\n',
    decreases frags.len(),
{
    if frags.len() > 0 {
        lemma_joined_shape(frags.drop_last());
    }
}

/// The file content of a run, target by target: each target contributes its
/// own fields, each preceded by one newline.
pub open spec fn contents_of(targets: Seq<Seq<char>>) -> Seq<char>
    decreases targets.len(),
{
    if targets.len() == 0 {
        Seq::empty()
    } else {
        contents_of(targets.drop_last()) + joined(split_semi(targets.last()))
    }
}

/// Law: the final file content of a run is the concatenation, in arrival
/// order, of each non-terminal target's newline-prefixed joined fields; it
/// is empty exactly for a run of zero non-terminal targets, since
/// `fields_of` and `joined` are both empty there.
pub proof fn lemma_run_content(targets: Seq<Seq<char>>)
    ensures
        joined(fields_of(targets)) == contents_of(targets),
    decreases targets.len(),
{
    if targets.len() > 0 {
        lemma_run_content(targets.drop_last());
        lemma_joined_append(fields_of(targets.drop_last()), split_semi(targets.last()));
    }
}

} // verus!
