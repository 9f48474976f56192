//! Proposing pipelines from a catalog of templates by their kinds alone.
use vstd::prelude::*;
use vstd::multiset::Multiset;
use vstd::seq_lib::group_to_multiset_ensures;
use crate::atom::AtomKind;
use crate::node::{NodeTemplate, TemplateView};
use crate::type_multiset::{TypeMultiset, contains, is_balanced_bag, type_set};
use crate::vec_copy::copy_vec;

verus! {

broadcast use group_to_multiset_ensures;

/// How many frontier entries the search expands, one per round: the
/// longest pipeline it proposes has this many templates.
pub const SEARCH_ROUNDS: usize = 4;

/// The most output ports a template may have for the search, so that a
/// count built up over all rounds fits in a `u8`.
pub const MAX_SEARCH_OUTPUTS: usize = 63;

/// The most input ports a template may have for the search, so that its
/// counts fit in a `u8`.
pub const MAX_SEARCH_INPUTS: usize = 255;

/// What the search does with a new pipeline, by whether it leaves every
/// produced value consumed (balanced).
#[derive(Clone, Copy, Debug, PartialEq, Eq, Structural)]
pub enum CompletionPolicy {
    /// Balanced pipelines go back on the frontier to be extended; the others
    /// are reported.
    ExtendBalanced,
    /// Balanced pipelines are reported; the others go back on the frontier
    /// to be extended.
    ReportBalanced,
}

/// Whether a new pipeline goes back on the frontier under `policy`.
pub open spec fn extends(policy: CompletionPolicy, balanced: bool) -> bool {
    match policy {
        CompletionPolicy::ExtendBalanced => balanced,
        CompletionPolicy::ReportBalanced => !balanced,
    }
}

/// The kinds that a template consumes and produces, each as a bag.
pub open spec fn kinds_of(t: TemplateView) -> (Multiset<AtomKind>, Multiset<AtomKind>) {
    (t.in_kinds().to_multiset(), t.outputs.to_multiset())
}

/// The catalog as bags of kinds consumed and produced.
pub open spec fn catalog_kinds(templates: Seq<NodeTemplate>) -> Seq<(Multiset<AtomKind>, Multiset<AtomKind>)> {
    templates.map_values(|t: NodeTemplate| kinds_of(t@))
}

/// Whether a template has few enough ports for the search.
pub open spec fn fits_search(t: TemplateView) -> bool {
    t.inputs.len() <= MAX_SEARCH_INPUTS && t.outputs.len() <= MAX_SEARCH_OUTPUTS
}

/// One frontier entry expanded with templates `0..j` of `catalog`: the new
/// frontier entries and the reported pipelines, each in catalog order. A
/// template applies where what it consumes is available; it then takes its
/// inputs away, adds its outputs, and joins the end of the pipeline.
pub open spec fn expand(
    catalog: Seq<(Multiset<AtomKind>, Multiset<AtomKind>)>,
    policy: CompletionPolicy,
    avail: Multiset<AtomKind>,
    path: Seq<usize>,
    j: nat,
) -> (Seq<(Multiset<AtomKind>, Seq<usize>)>, Seq<Seq<usize>>)
    decreases j,
{
    if j == 0 {
        (Seq::empty(), Seq::empty())
    } else {
        let prev = expand(catalog, policy, avail, path, (j - 1) as nat);
        let needs = catalog[j - 1].0;
        let gives = catalog[j - 1].1;
        if needs.subset_of(avail) {
            let next = avail.sub(needs).add(gives);
            let longer = path.push((j - 1) as usize);
            if extends(policy, is_balanced_bag(next)) {
                (prev.0.push((next, longer)), prev.1)
            } else {
                (prev.0, prev.1.push(longer))
            }
        } else {
            prev
        }
    }
}

/// The pipelines reported after `rounds` more rounds, from frontier `queue`
/// and pipelines `found` so far. Each round expands the first entry of the
/// frontier, if there is one.
pub open spec fn search(
    catalog: Seq<(Multiset<AtomKind>, Multiset<AtomKind>)>,
    policy: CompletionPolicy,
    rounds: nat,
    queue: Seq<(Multiset<AtomKind>, Seq<usize>)>,
    found: Seq<Seq<usize>>,
) -> Seq<Seq<usize>>
    decreases rounds,
{
    if rounds == 0 {
        found
    } else if queue.len() == 0 {
        search(catalog, policy, (rounds - 1) as nat, queue, found)
    } else {
        let grown = expand(catalog, policy, queue[0].0, queue[0].1, catalog.len());
        search(catalog, policy, (rounds - 1) as nat, queue.drop_first() + grown.0, found + grown.1)
    }
}

/// The pipelines that the search reports on `catalog` under `policy`,
/// starting from nothing available and the empty pipeline.
pub open spec fn proposals(
    catalog: Seq<(Multiset<AtomKind>, Multiset<AtomKind>)>,
    policy: CompletionPolicy,
) -> Seq<Seq<usize>> {
    search(
        catalog,
        policy,
        SEARCH_ROUNDS as nat,
        seq![(Multiset::empty(), Seq::empty())],
        Seq::empty(),
    )
}

/// A frontier entry whose pipeline has at most `depth` templates, and whose
/// counts are at most `MAX_SEARCH_OUTPUTS` per template of it.
pub open spec fn bounded(e: (Multiset<AtomKind>, Seq<usize>), depth: nat) -> bool {
    &&& e.1.len() <= depth
    &&& forall|k: AtomKind| #[trigger] e.0.count(k) <= MAX_SEARCH_OUTPUTS * e.1.len()
}

/// The plain view of a frontier entry.
pub open spec fn entry_view(e: (TypeMultiset, Vec<usize>)) -> (Multiset<AtomKind>, Seq<usize>) {
    (e.0@, e.1@)
}

/// The plain view of a frontier.
pub open spec fn queue_view(q: Seq<(TypeMultiset, Vec<usize>)>) -> Seq<(Multiset<AtomKind>, Seq<usize>)> {
    q.map_values(|e: (TypeMultiset, Vec<usize>)| entry_view(e))
}

/// The plain view of a list of pipelines.
pub open spec fn paths_view(r: Seq<Vec<usize>>) -> Seq<Seq<usize>> {
    r.map_values(|p: Vec<usize>| p@)
}

/// Each template of the catalog reduced to the bags of kinds it consumes
/// and produces.
fn kinds_by_template(templates: &Vec<NodeTemplate>) -> (r: Vec<(TypeMultiset, TypeMultiset)>)
    requires
        forall|i: int| 0 <= i < templates@.len() ==> fits_search(#[trigger] templates@[i]@),
    ensures
        r@.len() == templates@.len(),
        forall|i: int|
            0 <= i < r@.len() ==> (#[trigger] r@[i].0@, r@[i].1@) == catalog_kinds(templates@)[i],
{
    let mut r: Vec<(TypeMultiset, TypeMultiset)> = Vec::new();
    let mut i: usize = 0;
    while i < templates.len()
        invariant
            i <= templates@.len(),
            r@.len() == i,
            forall|j: int| 0 <= j < templates@.len() ==> fits_search(#[trigger] templates@[j]@),
            forall|j: int|
                0 <= j < i ==> (#[trigger] r@[j].0@, r@[j].1@) == catalog_kinds(templates@)[j],
        decreases templates@.len() - i,
    {
        let t = &templates[i];
        let ins = t.in_types();
        let outs = t.out_types();
        proof {
            assert(fits_search(templates@[i as int]@));
            assert forall|k: AtomKind| ins@.to_multiset().count(k) <= u8::MAX by {
                vstd::multiset::axiom_count_le_len(ins@.to_multiset(), k);
            }
            assert forall|k: AtomKind| outs@.to_multiset().count(k) <= u8::MAX by {
                vstd::multiset::axiom_count_le_len(outs@.to_multiset(), k);
            }
        }
        r.push((type_set(ins), type_set(outs)));
        i = i + 1;
    }
    r
}

/// Expands the frontier entry `(avail, path)` with every template of the
/// catalog, in order: new frontier entries join the end of `queue`, and
/// reported pipelines the end of `found`.
fn expand_into(
    kinds: &Vec<(TypeMultiset, TypeMultiset)>,
    policy: CompletionPolicy,
    avail: &TypeMultiset,
    path: &Vec<usize>,
    queue: &mut Vec<(TypeMultiset, Vec<usize>)>,
    found: &mut Vec<Vec<usize>>,
)
    requires
        path@.len() < SEARCH_ROUNDS,
        forall|k: AtomKind| #[trigger] avail@.count(k) <= MAX_SEARCH_OUTPUTS * path@.len(),
        forall|i: int, k: AtomKind|
            0 <= i < kinds@.len() ==> #[trigger] kinds@[i].1@.count(k) <= MAX_SEARCH_OUTPUTS,
    ensures
        queue_view(final(queue)@) == queue_view(old(queue)@) + expand(
            kinds@.map_values(|e: (TypeMultiset, TypeMultiset)| (e.0@, e.1@)),
            policy,
            avail@,
            path@,
            kinds@.len() as nat,
        ).0,
        paths_view(final(found)@) == paths_view(old(found)@) + expand(
            kinds@.map_values(|e: (TypeMultiset, TypeMultiset)| (e.0@, e.1@)),
            policy,
            avail@,
            path@,
            kinds@.len() as nat,
        ).1,
        forall|i: int|
            old(queue)@.len() <= i < final(queue)@.len() ==> #[trigger] final(queue)@[i].1@.len()
                == path@.len() + 1 && bounded(entry_view(final(queue)@[i]), (path@.len() + 1) as nat),
        forall|i: int| 0 <= i < old(queue)@.len() ==> #[trigger] final(queue)@[i] == old(queue)@[i],
{
    let ghost catalog = kinds@.map_values(|e: (TypeMultiset, TypeMultiset)| (e.0@, e.1@));
    let ghost q0 = queue@;
    let ghost f0 = found@;
    let mut j: usize = 0;
    proof {
        assert(queue_view(queue@) =~= queue_view(q0) + expand(catalog, policy, avail@, path@, 0).0);
        assert(paths_view(found@) =~= paths_view(f0) + expand(catalog, policy, avail@, path@, 0).1);
    }
    while j < kinds.len()
        invariant
            j <= kinds@.len(),
            catalog == kinds@.map_values(|e: (TypeMultiset, TypeMultiset)| (e.0@, e.1@)),
            path@.len() < SEARCH_ROUNDS,
            forall|k: AtomKind| #[trigger] avail@.count(k) <= MAX_SEARCH_OUTPUTS * path@.len(),
            forall|i: int, k: AtomKind|
                0 <= i < kinds@.len() ==> #[trigger] kinds@[i].1@.count(k) <= MAX_SEARCH_OUTPUTS,
            queue_view(queue@) == queue_view(q0) + expand(catalog, policy, avail@, path@, j as nat).0,
            paths_view(found@) == paths_view(f0) + expand(catalog, policy, avail@, path@, j as nat).1,
            q0.len() <= queue@.len(),
            forall|i: int|
                q0.len() <= i < queue@.len() ==> #[trigger] queue@[i].1@.len() == path@.len() + 1
                    && bounded(entry_view(queue@[i]), (path@.len() + 1) as nat),
            forall|i: int| 0 <= i < q0.len() ==> #[trigger] queue@[i] == q0[i],
        decreases kinds@.len() - j,
    {
        let needs = &kinds[j].0;
        let gives = &kinds[j].1;
        let ghost qv = queue_view(queue@);
        let ghost fv = paths_view(found@);
        if contains(avail, needs) {
            proof {
                assert forall|k: AtomKind|
                    avail@.count(k) - needs@.count(k) + gives@.count(k) <= u8::MAX by {
                    assert(kinds@[j as int].1@.count(k) <= MAX_SEARCH_OUTPUTS);
                }
            }
            let next = avail.exchange(needs, gives);
            let mut longer = copy_vec(path);
            longer.push(j);
            let balanced = next.is_balanced();
            let ghost e = (next@, longer@);
            proof {
                assert forall|k: AtomKind| #[trigger] next@.count(k) <= MAX_SEARCH_OUTPUTS * longer@.len() by {
                    assert(kinds@[j as int].1@.count(k) <= MAX_SEARCH_OUTPUTS);
                }
            }
            let extend = match policy {
                CompletionPolicy::ExtendBalanced => balanced,
                CompletionPolicy::ReportBalanced => !balanced,
            };
            if extend {
                queue.push((next, longer));
                proof {
                    assert(queue_view(queue@) =~= qv.push(e));
                }
            } else {
                found.push(longer);
                proof {
                    assert(paths_view(found@) =~= fv.push(e.1));
                }
            }
        }
        j = j + 1;
        proof {
            assert(catalog[j - 1] == (kinds@[j - 1].0@, kinds@[j - 1].1@));
        }
    }
}

/// Proposes pipelines from `templates` by their kinds alone, under
/// `policy`: a breadth-first search that expands one frontier entry per round
/// for `SEARCH_ROUNDS` rounds. Each pipeline is a list of catalog indices.
pub fn generate_graphs_with_policy(templates: &Vec<NodeTemplate>, policy: CompletionPolicy) -> (r:
    Vec<Vec<usize>>)
    requires
        forall|i: int| 0 <= i < templates@.len() ==> fits_search(#[trigger] templates@[i]@),
    ensures
        paths_view(r@) == proposals(catalog_kinds(templates@), policy),
{
    let kinds = kinds_by_template(templates);
    let ghost catalog = catalog_kinds(templates@);
    proof {
        assert(kinds@.map_values(|e: (TypeMultiset, TypeMultiset)| (e.0@, e.1@)) =~= catalog);
        assert forall|i: int, k: AtomKind|
            0 <= i < kinds@.len() implies #[trigger] kinds@[i].1@.count(k) <= MAX_SEARCH_OUTPUTS by {
            assert(fits_search(templates@[i]@));
            assert((kinds@[i].0@, kinds@[i].1@) == catalog_kinds(templates@)[i]);
            assert(kinds@[i].1@ == templates@[i]@.outputs.to_multiset());
            vstd::multiset::axiom_count_le_len(templates@[i]@.outputs.to_multiset(), k);
        }
    }
    let mut queue: Vec<(TypeMultiset, Vec<usize>)> = Vec::new();
    queue.push((TypeMultiset::new(), Vec::new()));
    let mut found: Vec<Vec<usize>> = Vec::new();
    proof {
        assert(queue_view(queue@) =~= seq![(Multiset::<AtomKind>::empty(), Seq::<usize>::empty())]);
        assert(paths_view(found@) =~= Seq::<Seq<usize>>::empty());
    }
    let mut round: usize = 0;
    while round < SEARCH_ROUNDS
        invariant
            round <= SEARCH_ROUNDS,
            catalog == kinds@.map_values(|e: (TypeMultiset, TypeMultiset)| (e.0@, e.1@)),
            forall|i: int, k: AtomKind|
                0 <= i < kinds@.len() ==> #[trigger] kinds@[i].1@.count(k) <= MAX_SEARCH_OUTPUTS,
            proposals(catalog, policy) == search(
                catalog,
                policy,
                (SEARCH_ROUNDS - round) as nat,
                queue_view(queue@),
                paths_view(found@),
            ),
            forall|i: int|
                0 <= i < queue@.len() ==> bounded(entry_view(#[trigger] queue@[i]), round as nat),
        decreases SEARCH_ROUNDS - round,
    {
        if queue.len() > 0 {
            let ghost qv = queue_view(queue@);
            let (avail, path) = queue.remove(0);
            proof {
                assert(queue_view(queue@) =~= qv.drop_first());
                assert(bounded(qv[0], round as nat));
            }
            let ghost before = queue@;
            expand_into(&kinds, policy, &avail, &path, &mut queue, &mut found);
            proof {
                assert forall|i: int| 0 <= i < queue@.len() implies bounded(
                    entry_view(#[trigger] queue@[i]),
                    (round + 1) as nat,
                ) by {
                    if i < before.len() {
                        assert(queue@[i] == before[i]);
                    }
                }
            }
        }
        round = round + 1;
    }
    found
}

/// Proposes pipelines from `templates`, reporting those that leave every
/// produced value consumed and extending the others.
pub fn generate_graphs(templates: &Vec<NodeTemplate>) -> (r: Vec<Vec<usize>>)
    requires
        forall|i: int| 0 <= i < templates@.len() ==> fits_search(#[trigger] templates@[i]@),
    ensures
        paths_view(r@) == proposals(catalog_kinds(templates@), CompletionPolicy::ReportBalanced),
{
    generate_graphs_with_policy(templates, CompletionPolicy::ReportBalanced)
}

/// What is left available after the templates of `path` run in order,
/// starting from nothing.
pub open spec fn left_after(
    catalog: Seq<(Multiset<AtomKind>, Multiset<AtomKind>)>,
    path: Seq<usize>,
) -> Multiset<AtomKind>
    decreases path.len(),
{
    if path.len() == 0 {
        Multiset::empty()
    } else {
        left_after(catalog, path.drop_last()).sub(catalog[path.last() as int].0).add(
            catalog[path.last() as int].1,
        )
    }
}

/// Whether the templates of `path` can run in order, starting from nothing:
/// each one names a template of the catalog and finds what it consumes
/// among what the earlier ones left.
pub open spec fn chains(catalog: Seq<(Multiset<AtomKind>, Multiset<AtomKind>)>, path: Seq<usize>) -> bool
    decreases path.len(),
{
    if path.len() == 0 {
        true
    } else {
        &&& chains(catalog, path.drop_last())
        &&& path.last() < catalog.len()
        &&& catalog[path.last() as int].0.subset_of(left_after(catalog, path.drop_last()))
    }
}

/// A frontier entry whose pipeline chains and leaves what the entry says.
pub open spec fn entry_chains(
    catalog: Seq<(Multiset<AtomKind>, Multiset<AtomKind>)>,
    e: (Multiset<AtomKind>, Seq<usize>),
) -> bool {
    chains(catalog, e.1) && e.0 == left_after(catalog, e.1)
}

/// A reported pipeline that chains, and that `policy` reports rather than
/// extends.
pub open spec fn reportable(
    catalog: Seq<(Multiset<AtomKind>, Multiset<AtomKind>)>,
    policy: CompletionPolicy,
    path: Seq<usize>,
) -> bool {
    chains(catalog, path) && !extends(policy, is_balanced_bag(left_after(catalog, path)))
}

proof fn lemma_expand_chains(
    catalog: Seq<(Multiset<AtomKind>, Multiset<AtomKind>)>,
    policy: CompletionPolicy,
    avail: Multiset<AtomKind>,
    path: Seq<usize>,
    j: nat,
)
    requires
        entry_chains(catalog, (avail, path)),
        j <= catalog.len() <= usize::MAX,
    ensures
        forall|i: int|
            0 <= i < expand(catalog, policy, avail, path, j).0.len() ==> entry_chains(
                catalog,
                #[trigger] expand(catalog, policy, avail, path, j).0[i],
            ),
        forall|i: int|
            0 <= i < expand(catalog, policy, avail, path, j).1.len() ==> reportable(
                catalog,
                policy,
                #[trigger] expand(catalog, policy, avail, path, j).1[i],
            ),
    decreases j,
{
    if j > 0 {
        lemma_expand_chains(catalog, policy, avail, path, (j - 1) as nat);
        let prev = expand(catalog, policy, avail, path, (j - 1) as nat);
        let cur = expand(catalog, policy, avail, path, j);
        let needs = catalog[j - 1].0;
        let gives = catalog[j - 1].1;
        if needs.subset_of(avail) {
            let next = avail.sub(needs).add(gives);
            let longer = path.push((j - 1) as usize);
            assert(longer.drop_last() =~= path);
            assert(longer.last() as int == j - 1);
            assert(chains(catalog, longer));
            assert(left_after(catalog, longer) == next);
            if extends(policy, is_balanced_bag(next)) {
                assert(cur.0 == prev.0.push((next, longer)));
                assert forall|i: int| 0 <= i < cur.0.len() implies entry_chains(
                    catalog,
                    #[trigger] cur.0[i],
                ) by {
                    if i < prev.0.len() {
                        assert(cur.0[i] == prev.0[i]);
                    }
                }
            } else {
                assert(cur.1 == prev.1.push(longer));
                assert forall|i: int| 0 <= i < cur.1.len() implies reportable(
                    catalog,
                    policy,
                    #[trigger] cur.1[i],
                ) by {
                    if i < prev.1.len() {
                        assert(cur.1[i] == prev.1[i]);
                    }
                }
            }
        } else {
            assert(cur == prev);
        }
    }
}

proof fn lemma_search_chains(
    catalog: Seq<(Multiset<AtomKind>, Multiset<AtomKind>)>,
    policy: CompletionPolicy,
    rounds: nat,
    queue: Seq<(Multiset<AtomKind>, Seq<usize>)>,
    found: Seq<Seq<usize>>,
)
    requires
        catalog.len() <= usize::MAX,
        forall|i: int| 0 <= i < queue.len() ==> entry_chains(catalog, #[trigger] queue[i]),
        forall|i: int| 0 <= i < found.len() ==> reportable(catalog, policy, #[trigger] found[i]),
    ensures
        forall|i: int|
            0 <= i < search(catalog, policy, rounds, queue, found).len() ==> reportable(
                catalog,
                policy,
                #[trigger] search(catalog, policy, rounds, queue, found)[i],
            ),
    decreases rounds,
{
    if rounds == 0 {
        assert(search(catalog, policy, rounds, queue, found) == found);
    } else {
        if queue.len() == 0 {
            lemma_search_chains(catalog, policy, (rounds - 1) as nat, queue, found);
            assert(search(catalog, policy, rounds, queue, found) == search(
                catalog,
                policy,
                (rounds - 1) as nat,
                queue,
                found,
            ));
        } else {
            let grown = expand(catalog, policy, queue[0].0, queue[0].1, catalog.len());
            assert(entry_chains(catalog, queue[0]));
            lemma_expand_chains(catalog, policy, queue[0].0, queue[0].1, catalog.len());
            let q2 = queue.drop_first() + grown.0;
            let f2 = found + grown.1;
            assert forall|i: int| 0 <= i < q2.len() implies entry_chains(catalog, #[trigger] q2[i]) by {
                if i < queue.len() - 1 {
                    assert(q2[i] == queue[i + 1]);
                } else {
                    assert(q2[i] == grown.0[i - (queue.len() - 1)]);
                }
            }
            assert forall|i: int| 0 <= i < f2.len() implies reportable(catalog, policy, #[trigger] f2[i]) by {
                if i >= found.len() {
                    assert(f2[i] == grown.1[i - found.len()]);
                }
            }
            lemma_search_chains(catalog, policy, (rounds - 1) as nat, q2, f2);
            assert(search(catalog, policy, rounds, queue, found) == search(
                catalog,
                policy,
                (rounds - 1) as nat,
                q2,
                f2,
            ));
        }
    }
}

/// Every pipeline that the search reports can run in order from nothing:
/// each template finds what it consumes among what the earlier ones left.
/// Under `ReportBalanced` each reported pipeline leaves nothing over; under
/// `ExtendBalanced` each leaves something over.
pub proof fn lemma_proposals_chain(
    catalog: Seq<(Multiset<AtomKind>, Multiset<AtomKind>)>,
    policy: CompletionPolicy,
)
    requires
        catalog.len() <= usize::MAX,
    ensures
        forall|i: int|
            0 <= i < proposals(catalog, policy).len() ==> chains(
                catalog,
                #[trigger] proposals(catalog, policy)[i],
            ) && !extends(policy, is_balanced_bag(left_after(catalog, proposals(catalog, policy)[i]))),
{
    let start = seq![(Multiset::<AtomKind>::empty(), Seq::<usize>::empty())];
    assert(entry_chains(catalog, start[0]));
    lemma_search_chains(catalog, policy, SEARCH_ROUNDS as nat, start, Seq::empty());
}

} // verus!
