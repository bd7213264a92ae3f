use vstd::prelude::*;
use crate::error::PerceptionError;

verus! {

/// Unit `j` may become a neighbor: it is another unit than `own`, and the
/// strength of the link to it lies above the cutoff.
///
/// A strength is an integer that orders links as the magnitudes of their
/// weights do; `strengths[j]` is the strength of the link to unit `j`.
pub open spec fn is_candidate(strengths: Seq<u32>, own: int, cutoff: u32, j: int) -> bool {
    &&& 0 <= j < strengths.len()
    &&& j != own
    &&& strengths[j] > cutoff
}

/// The link to unit `a` comes before the link to unit `b`: it is stronger,
/// or as strong and to an earlier unit.
pub open spec fn ranks_before(strengths: Seq<u32>, a: int, b: int) -> bool {
    strengths[a] > strengths[b] || (strengths[a] == strengths[b] && a < b)
}

/// Unit `j` is among the targets.
pub open spec fn is_linked(links: Seq<usize>, j: int) -> bool {
    exists|k: int| 0 <= k < links.len() && links[k] == j
}

/// `links` holds the strongest `max_neighbors` candidates among the units
/// below `upto`, strongest first: every target is such a candidate, the
/// targets are in rank order, and a candidate is left out only when the list
/// is full and every target ranks before it.
pub open spec fn strongest_among(
    strengths: Seq<u32>,
    own: int,
    cutoff: u32,
    max_neighbors: int,
    upto: int,
    links: Seq<usize>,
) -> bool {
    &&& links.len() <= max_neighbors
    &&& forall|k: int|
        0 <= k < links.len() ==> (#[trigger] links[k]) < upto && is_candidate(
            strengths,
            own,
            cutoff,
            links[k] as int,
        )
    &&& forall|k: int, l: int|
        0 <= k < l < links.len() ==> ranks_before(
            strengths,
            #[trigger] links[k] as int,
            #[trigger] links[l] as int,
        )
    &&& forall|c: int|
        0 <= c < upto && #[trigger] is_candidate(strengths, own, cutoff, c) && !is_linked(links, c)
            ==> links.len() == max_neighbors
    &&& forall|c: int, k: int|
        0 <= c < upto && #[trigger] is_candidate(strengths, own, cutoff, c) && !is_linked(links, c)
            && 0 <= k < links.len() ==> ranks_before(strengths, #[trigger] links[k] as int, c)
}

/// `links` is the neighborhood of unit `own`: the strongest `max_neighbors`
/// of all its candidates, strongest first.
pub open spec fn is_neighborhood(
    strengths: Seq<u32>,
    own: int,
    cutoff: u32,
    max_neighbors: int,
    links: Seq<usize>,
) -> bool {
    strongest_among(strengths, own, cutoff, max_neighbors, strengths.len() as int, links)
}

/// Every target is a unit of a swarm of `swarm_size` units.
pub open spec fn links_valid(links: Seq<usize>, swarm_size: int) -> bool {
    forall|k: int| 0 <= k < links.len() ==> (#[trigger] links[k]) < swarm_size
}

/// Takes candidate `j` into a list that holds the strongest candidates below
/// `j`: `j` goes behind every target that is at least as strong, and the
/// weakest target leaves if the list is over its length.
fn take_in(
    links: &mut Vec<usize>,
    strengths: &Vec<u32>,
    own: usize,
    cutoff: u32,
    max_neighbors: usize,
    j: usize,
)
    requires
        is_candidate(strengths@, own as int, cutoff, j as int),
        strongest_among(strengths@, own as int, cutoff, max_neighbors as int, j as int, old(links)@),
    ensures
        strongest_among(
            strengths@,
            own as int,
            cutoff,
            max_neighbors as int,
            j + 1,
            final(links)@,
        ),
{
    let ghost before = links@;
    let ghost s = strengths@;
    let strength = strengths[j];
    // `j` goes to position `p`: behind the targets that are at least as
    // strong, before those that are weaker.
    let mut p: usize = links.len();
    while p > 0 && strengths[links[p - 1]] < strength
        invariant
            links@ == before,
            p <= links.len(),
            s == strengths@,
            j < s.len(),
            strength == s[j as int],
            forall|k: int| 0 <= k < before.len() ==> (#[trigger] before[k]) < s.len(),
            forall|k: int| p <= k < before.len() ==> s[(#[trigger] before[k]) as int] < strength,
        decreases p,
    {
        p -= 1;
    }
    assert(forall|k: int| 0 <= k < p ==> s[(#[trigger] before[k]) as int] >= strength);
    if links.len() < max_neighbors {
        links.insert(p, j);
        proof {
            let after = links@;
            assert(forall|k: int| 0 <= k < p ==> after[k] == before[k]);
            assert(after[p as int] == j);
            // Nothing was left out before, and nothing is now.
            assert forall|c: int|
                0 <= c < j + 1 && is_candidate(s, own as int, cutoff, c) implies is_linked(
                after,
                c,
            ) by {
                if c != j {
                    let k = choose|k: int| 0 <= k < before.len() && before[k] == c;
                    if k >= p {
                        assert(after[k + 1] == c);
                    }
                }
            }
        }
    } else if p < links.len() {
        links.pop();
        links.insert(p, j);
        proof {
            let after = links@;
            let last = before.len() - 1;
            assert(forall|k: int| 0 <= k < p ==> after[k] == before[k]);
            assert(after[p as int] == j);
            // A candidate that is left out now is the weakest target of
            // before, or was left out before: all who stay rank before it,
            // and `j` is stronger than the weakest.
            assert forall|c: int, k: int|
                0 <= c < j + 1 && #[trigger] is_candidate(s, own as int, cutoff, c) && !is_linked(
                    after,
                    c,
                ) && 0 <= k < after.len() implies ranks_before(
                s,
                #[trigger] after[k] as int,
                c,
            ) by {
                assert(c != j) by {
                    assert(after[p as int] == j);
                }
                if is_linked(before, c) {
                    let at = choose|at: int| 0 <= at < before.len() && before[at] == c;
                    if p <= at < last {
                        assert(after[at + 1] == c);
                    }
                    assert(at == last);
                } else {
                    assert(ranks_before(s, before[last] as int, c));
                }
                if k != p {
                    let q = if k < p { k } else { k - 1 };
                    assert(after[k] == before[q]);
                    if is_linked(before, c) {
                        assert(ranks_before(s, before[q] as int, before[last] as int));
                    } else {
                        assert(ranks_before(s, before[q] as int, c));
                    }
                }
            }
        }
    } else {
        // The list is full of targets that are at least as strong as `j`
        // and come earlier: `j` is left out.
        assert forall|k: int| 0 <= k < before.len() implies ranks_before(
            s,
            #[trigger] before[k] as int,
            j as int,
        ) by {}
    }
}

/// Chooses the neighbors of unit `own`. `strengths[j]` is the strength of the
/// link from `own` to unit `j`; the entry of `own` itself is not read. The
/// targets are the at most `max_neighbors` strongest units whose strength
/// lies above `cutoff`, strongest first, the earlier unit first where two are
/// equally strong.
pub fn select_neighbors(own: usize, strengths: &Vec<u32>, cutoff: u32, max_neighbors: usize) -> (links:
    Vec<usize>)
    ensures
        links.len() <= max_neighbors,
        forall|k: int|
            0 <= k < links.len() ==> (#[trigger] links[k]) < strengths.len() && links[k] != own,
        is_neighborhood(strengths@, own as int, cutoff, max_neighbors as int, links@),
{
    let n = strengths.len();
    let mut links: Vec<usize> = Vec::new();
    let mut j: usize = 0;
    while j < n
        invariant
            n == strengths.len(),
            j <= n,
            strongest_among(strengths@, own as int, cutoff, max_neighbors as int, j as int, links@),
        decreases n - j,
    {
        if j != own && strengths[j] > cutoff {
            take_in(&mut links, strengths, own, cutoff, max_neighbors, j);
        }
        j += 1;
    }
    links
}

/// Wires a whole swarm. Row `i` of `strengths` holds the strengths of the
/// links from unit `i` to every unit; unit `i` gets the neighborhood that
/// `select_neighbors` chooses from its row.
pub fn wire_swarm_topology(strengths: &Vec<Vec<u32>>, cutoff: u32, max_neighbors: usize) -> (wiring:
    Vec<Vec<usize>>)
    ensures
        wiring.len() == strengths.len(),
        forall|i: int| 0 <= i < wiring.len() ==> (#[trigger] wiring[i]).len() <= max_neighbors,
        forall|i: int, k: int|
            0 <= i < wiring.len() && 0 <= k < wiring[i].len() ==> (#[trigger] wiring[i][k])
                < strengths[i].len() && wiring[i][k] != i,
        forall|i: int|
            0 <= i < wiring.len() ==> is_neighborhood(
                strengths[i]@,
                i,
                cutoff,
                max_neighbors as int,
                #[trigger] wiring[i]@,
            ),
{
    let n = strengths.len();
    let mut wiring: Vec<Vec<usize>> = Vec::new();
    let mut i: usize = 0;
    while i < n
        invariant
            n == strengths.len(),
            i <= n,
            wiring.len() == i,
            forall|u: int| 0 <= u < i ==> (#[trigger] wiring[u]).len() <= max_neighbors,
            forall|u: int, k: int|
                0 <= u < i && 0 <= k < wiring[u].len() ==> (#[trigger] wiring[u][k])
                    < strengths[u].len() && wiring[u][k] != u,
            forall|u: int|
                0 <= u < i ==> is_neighborhood(
                    strengths[u]@,
                    u,
                    cutoff,
                    max_neighbors as int,
                    #[trigger] wiring[u]@,
                ),
        decreases n - i,
    {
        let links = select_neighbors(i, &strengths[i], cutoff, max_neighbors);
        wiring.push(links);
        i += 1;
    }
    wiring
}

/// Checks the targets of a unit's links against the swarm that they are to
/// be followed in.
pub fn validate_links(links: &Vec<usize>, swarm_size: usize) -> (r: Result<(), PerceptionError>)
    ensures
        links_valid(links@, swarm_size as int) ==> r == Ok::<(), PerceptionError>(()),
        !links_valid(links@, swarm_size as int) ==> r == Err::<(), PerceptionError>(
            PerceptionError::BrokenTopology,
        ),
{
    let mut k: usize = 0;
    while k < links.len()
        invariant
            k <= links.len(),
            forall|q: int| 0 <= q < k ==> (#[trigger] links[q]) < swarm_size,
        decreases links.len() - k,
    {
        if links[k] >= swarm_size {
            return Err(PerceptionError::BrokenTopology);
        }
        k += 1;
    }
    Ok(())
}

/// Two neighborhoods of one unit agree at every position that both have.
proof fn lemma_same_target(
    strengths: Seq<u32>,
    own: int,
    cutoff: u32,
    max_neighbors: int,
    a: Seq<usize>,
    b: Seq<usize>,
    p: int,
)
    requires
        is_neighborhood(strengths, own, cutoff, max_neighbors, a),
        is_neighborhood(strengths, own, cutoff, max_neighbors, b),
        0 <= p < a.len(),
        p < b.len(),
    ensures
        a[p] == b[p],
    decreases p,
{
    assert forall|q: int| 0 <= q < p implies a[q] == b[q] by {
        lemma_same_target(strengths, own, cutoff, max_neighbors, a, b, q);
    }
    let x = a[p] as int;
    let y = b[p] as int;
    if x != y {
        // Unless `b` leaves `x` out, it holds `x` behind position `p`, for
        // up to `p` it holds what `a` holds. Either way `y` ranks before `x`.
        assert(ranks_before(strengths, y, x)) by {
            if is_linked(b, x) {
                let q = choose|q: int| 0 <= q < b.len() && b[q] == x;
                assert(q > p);
            }
        }
        // And likewise `x` before `y`, which cannot both be.
        assert(ranks_before(strengths, x, y)) by {
            if is_linked(a, y) {
                let q = choose|q: int| 0 <= q < a.len() && a[q] == y;
                assert(q > p);
            }
        }
    }
}

/// One list is no longer than another neighborhood of the same unit.
proof fn lemma_no_longer(
    strengths: Seq<u32>,
    own: int,
    cutoff: u32,
    max_neighbors: int,
    a: Seq<usize>,
    b: Seq<usize>,
)
    requires
        is_neighborhood(strengths, own, cutoff, max_neighbors, a),
        is_neighborhood(strengths, own, cutoff, max_neighbors, b),
    ensures
        a.len() <= b.len(),
{
    if a.len() > b.len() {
        // `b` is not full, so it leaves out no candidate, and holds `x` at
        // a position where `a` holds it too: `a` would hold `x` twice.
        let x = a[b.len() as int] as int;
        let q = choose|q: int| 0 <= q < b.len() && b[q] == x;
        lemma_same_target(strengths, own, cutoff, max_neighbors, a, b, q);
    }
}

/// A unit has one neighborhood: the strengths, the cutoff and the cap
/// determine the list of targets, order included.
pub proof fn lemma_neighborhood_is_unique(
    strengths: Seq<u32>,
    own: int,
    cutoff: u32,
    max_neighbors: int,
    a: Seq<usize>,
    b: Seq<usize>,
)
    requires
        is_neighborhood(strengths, own, cutoff, max_neighbors, a),
        is_neighborhood(strengths, own, cutoff, max_neighbors, b),
    ensures
        a == b,
{
    lemma_no_longer(strengths, own, cutoff, max_neighbors, a, b);
    lemma_no_longer(strengths, own, cutoff, max_neighbors, b, a);
    assert forall|p: int| 0 <= p < a.len() implies a[p] == b[p] by {
        lemma_same_target(strengths, own, cutoff, max_neighbors, a, b, p);
    }
}

/// While the list is not full, no candidate is left out.
pub proof fn lemma_room_for_every_candidate(
    strengths: Seq<u32>,
    own: int,
    cutoff: u32,
    max_neighbors: int,
    links: Seq<usize>,
    j: int,
)
    requires
        is_neighborhood(strengths, own, cutoff, max_neighbors, links),
        links.len() < max_neighbors,
        is_candidate(strengths, own, cutoff, j),
    ensures
        is_linked(links, j),
{
}

/// The links that wiring gives a unit can be followed in the swarm that the
/// strengths were taken from.
pub proof fn lemma_wired_links_are_valid(
    strengths: Seq<u32>,
    own: int,
    cutoff: u32,
    max_neighbors: int,
    links: Seq<usize>,
    swarm_size: int,
)
    requires
        is_neighborhood(strengths, own, cutoff, max_neighbors, links),
        strengths.len() <= swarm_size,
    ensures
        links_valid(links, swarm_size),
{
}

} // verus!
