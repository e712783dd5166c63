use vstd::prelude::*;

use crate::error::Error;
use crate::lines::destination_lines;
use crate::lines::destination_lines_spec;
use crate::lines::lemma_keep_nonempty_identity;
use crate::lines::lemma_split_render_round_trip;
use crate::lines::line_safe;
use crate::lines::render_spec;

verus! {

/// One rename selected for execution: a source path and the destination
/// path that stood on the same line of the edited list.
#[derive(Debug, Clone, PartialEq, Eq)]
pub struct Rename {
    pub source: Vec<u8>,
    pub destination: Vec<u8>,
}

impl DeepView for Rename {
    type V = (Seq<u8>, Seq<u8>);

    open spec fn deep_view(&self) -> Self::V {
        (self.source@, self.destination@)
    }
}

/// The rename records for positionally paired lists: one `(source, dest)`
/// pair per index whose two entries differ, in index order.  Identical
/// pairs are skipped and never counted.
pub open spec fn plan_spec(sources: Seq<Seq<u8>>, destinations: Seq<Seq<u8>>) -> Seq<
    (Seq<u8>, Seq<u8>),
>
    recommends
        sources.len() == destinations.len(),
    decreases sources.len(),
{
    if sources.len() == 0 {
        Seq::empty()
    } else {
        let rest = plan_spec(sources.drop_last(), destinations.drop_last());
        if sources.last() == destinations.last() {
            rest
        } else {
            rest.push((sources.last(), destinations.last()))
        }
    }
}

/// The number of index positions where source and destination differ.
pub open spec fn diff_count(sources: Seq<Seq<u8>>, destinations: Seq<Seq<u8>>) -> nat
    recommends
        sources.len() == destinations.len(),
    decreases sources.len(),
{
    if sources.len() == 0 {
        0
    } else {
        diff_count(sources.drop_last(), destinations.drop_last()) + if sources.last()
            == destinations.last() {
            0nat
        } else {
            1nat
        }
    }
}

/// The set of index positions where source and destination differ.
pub open spec fn differing_indices(sources: Seq<Seq<u8>>, destinations: Seq<Seq<u8>>) -> Set<int> {
    Set::new(|i: int| 0 <= i < sources.len() && sources[i] != destinations[i])
}

/// For equal-length lists, the planner emits exactly one rename per
/// differing position: the number of renames to perform equals the number
/// of index positions where source and destination differ.
pub proof fn lemma_rename_count(sources: Seq<Seq<u8>>, destinations: Seq<Seq<u8>>)
    requires
        sources.len() == destinations.len(),
    ensures
        plan_spec(sources, destinations).len() == diff_count(sources, destinations),
    decreases sources.len(),
{
    if sources.len() == 0 {
    } else {
        lemma_rename_count(sources.drop_last(), destinations.drop_last());
    }
}

/// `diff_count` is the cardinality of the set of differing positions.
pub proof fn lemma_diff_count_is_cardinality(sources: Seq<Seq<u8>>, destinations: Seq<Seq<u8>>)
    requires
        sources.len() == destinations.len(),
    ensures
        differing_indices(sources, destinations).finite(),
        differing_indices(sources, destinations).len() == diff_count(sources, destinations),
    decreases sources.len(),
{
    let d = differing_indices(sources, destinations);
    if sources.len() == 0 {
        assert(d =~= Set::<int>::empty());
    } else {
        let n = sources.len() - 1;
        let s0 = sources.drop_last();
        let d0 = destinations.drop_last();
        lemma_diff_count_is_cardinality(s0, d0);
        let prev = differing_indices(s0, d0);
        assert forall|i: int| prev.contains(i) implies 0 <= i < n && sources[i] != destinations[i]
        by {
            assert(s0[i] == sources[i] && d0[i] == destinations[i]);
        }
        assert forall|i: int| 0 <= i < n && sources[i] != destinations[i] implies prev.contains(i)
        by {
            assert(s0[i] == sources[i] && d0[i] == destinations[i]);
        }
        if sources.last() == destinations.last() {
            assert(d =~= prev);
        } else {
            assert(d =~= prev.insert(n));
            assert(!prev.contains(n));
        }
    }
}

/// The plan is minimal: no identity rename is ever emitted, so every
/// planned record moves a file to a genuinely different path.
pub proof fn lemma_plan_no_identity(sources: Seq<Seq<u8>>, destinations: Seq<Seq<u8>>)
    ensures
        forall|j: int|
            0 <= j < plan_spec(sources, destinations).len() ==> (#[trigger] plan_spec(
                sources,
                destinations,
            )[j]).0 != plan_spec(sources, destinations)[j].1,
    decreases sources.len(),
{
    if sources.len() == 0 {
    } else {
        lemma_plan_no_identity(sources.drop_last(), destinations.drop_last());
        let rest = plan_spec(sources.drop_last(), destinations.drop_last());
        let whole = plan_spec(sources, destinations);
        assert forall|j: int| 0 <= j < whole.len() implies (#[trigger] whole[j]).0 != whole[j].1 by {
            if j < rest.len() {
                assert(whole[j] == rest[j]);
            } else {
                assert(whole[j] == (sources.last(), destinations.last()));
            }
        }
    }
}

/// Re-running the tool on an unedited list plans nothing: when every
/// destination equals its source, no rename is emitted at all.
pub proof fn lemma_identical_lists_plan_nothing(sources: Seq<Seq<u8>>)
    ensures
        plan_spec(sources, sources) == Seq::<(Seq<u8>, Seq<u8>)>::empty(),
        diff_count(sources, sources) == 0,
    decreases sources.len(),
{
    if sources.len() == 0 {
    } else {
        lemma_identical_lists_plan_nothing(sources.drop_last());
    }
}

/// Pairs each source with the destination at the same position and selects
/// the pairs that actually differ, in order.  Fails with `InvalidFileList`
/// exactly when the two lists' lengths disagree; nothing is planned then,
/// so no filesystem mutation can follow.
pub fn plan(sources: &Vec<Vec<u8>>, destinations: &Vec<Vec<u8>>) -> (r: Result<Vec<Rename>, Error>)
    ensures
        r is Ok <==> sources@.len() == destinations@.len(),
        r matches Err(e) ==> e == Error::InvalidFileList,
        r matches Ok(records) ==> records.deep_view() == plan_spec(
            sources.deep_view(),
            destinations.deep_view(),
        ),
{
    if sources.len() != destinations.len() {
        return Err(Error::InvalidFileList);
    }
    let ghost s = sources.deep_view();
    let ghost d = destinations.deep_view();
    let mut records: Vec<Rename> = Vec::new();
    let mut i: usize = 0;
    proof {
        assert(records.deep_view() =~~= plan_spec(s.take(0), d.take(0)));
    }
    while i < sources.len()
        invariant
            i <= sources@.len(),
            sources@.len() == destinations@.len(),
            s == sources.deep_view(),
            d == destinations.deep_view(),
            records.deep_view() == plan_spec(s.take(i as int), d.take(i as int)),
        decreases sources@.len() - i,
    {
        let ghost prev = records.deep_view();
        proof {
            assert(s.take(i + 1).drop_last() =~~= s.take(i as int));
            assert(d.take(i + 1).drop_last() =~~= d.take(i as int));
            assert(s.take(i + 1).last() == s[i as int]);
            assert(d.take(i + 1).last() == d[i as int]);
            assert(s[i as int] =~= sources@[i as int]@);
            assert(d[i as int] =~= destinations@[i as int]@);
        }
        if sources[i] == destinations[i] {
            proof {
                assert(s[i as int] =~= d[i as int]);
            }
        } else {
            let record = Rename {
                source: crate::lines::clone_bytes(&sources[i]),
                destination: crate::lines::clone_bytes(&destinations[i]),
            };
            proof {
                assert(record.deep_view() == (s[i as int], d[i as int]));
                assert(s[i as int] != d[i as int]);
            }
            records.push(record);
            proof {
                assert(records.deep_view() =~~= prev.push((s[i as int], d[i as int])));
            }
        }
        i = i + 1;
    }
    proof {
        assert(s.take(sources@.len() as int) =~~= s);
        assert(d.take(destinations@.len() as int) =~~= d);
    }
    Ok(records)
}

/// Idempotence of the whole pipeline: the scratch file written from the
/// source list, read back unedited, yields that same list as destinations,
/// and the plan for it is empty — re-running the tool with a destination
/// list identical to the source list performs zero renames.  Source paths
/// must be non-blank and free of embedded line breaks, as blank lines are
/// dropped on reading and a line break cannot be represented.
pub proof fn lemma_unedited_list_plans_nothing(sources: Seq<Seq<u8>>)
    requires
        forall|i: int| 0 <= i < sources.len() ==> sources[i].len() != 0,
        line_safe(sources),
    ensures
        destination_lines_spec(render_spec(sources)) == sources,
        plan_spec(sources, destination_lines_spec(render_spec(sources))) == Seq::<
            (Seq<u8>, Seq<u8>),
        >::empty(),
{
    lemma_split_render_round_trip(sources);
    lemma_keep_nonempty_identity(sources);
    lemma_identical_lists_plan_nothing(sources);
}

/// Plans the renames straight from the edited scratch file's contents: the
/// destination list is the file's non-blank lines, and it must pair up
/// positionally with the source list.  `InvalidFileList` exactly when the
/// counts disagree; then nothing is planned, so nothing will be renamed.
pub fn plan_edited(sources: &Vec<Vec<u8>>, edited: &Vec<u8>) -> (r: Result<Vec<Rename>, Error>)
    ensures
        r is Ok <==> sources.deep_view().len() == destination_lines_spec(edited@).len(),
        r matches Err(e) ==> e == Error::InvalidFileList,
        r matches Ok(records) ==> records.deep_view() == plan_spec(
            sources.deep_view(),
            destination_lines_spec(edited@),
        ),
{
    let destinations = destination_lines(edited);
    plan(sources, &destinations)
}

} // verus!
