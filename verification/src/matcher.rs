use vstd::prelude::*;
use crate::text::{chars_of, texts};

verus! {

pub open spec fn min3(x: nat, y: nat, z: nat) -> nat {
    if x <= y && x <= z {
        x
    } else if y <= z {
        y
    } else {
        z
    }
}

/// The edit distance between the first `i` characters of `a` and the first
/// `j` characters of `b`: the least number of single-character insertions,
/// deletions and substitutions that turn the one into the other.
pub open spec fn prefix_distance(a: Seq<char>, b: Seq<char>, i: nat, j: nat) -> nat
    decreases i + j,
{
    if i == 0 {
        j
    } else if j == 0 {
        i
    } else {
        let change: nat = if a[i - 1] == b[j - 1] { 0 } else { 1 };
        min3(
            prefix_distance(a, b, (i - 1) as nat, j) + 1,
            prefix_distance(a, b, i, (j - 1) as nat) + 1,
            prefix_distance(a, b, (i - 1) as nat, (j - 1) as nat) + change,
        )
    }
}

/// The edit distance between `a` and `b`.
pub open spec fn edit_distance(a: Seq<char>, b: Seq<char>) -> nat {
    prefix_distance(a, b, a.len(), b.len())
}

/// The distance between two prefixes never exceeds the longer of them.
pub proof fn lemma_distance_bounded(a: Seq<char>, b: Seq<char>, i: nat, j: nat)
    ensures
        prefix_distance(a, b, i, j) <= if i <= j { j } else { i },
    decreases i + j,
{
    if i > 0 && j > 0 {
        lemma_distance_bounded(a, b, (i - 1) as nat, (j - 1) as nat);
    }
}

fn successor(x: usize) -> (r: usize)
    ensures
        r == if x < usize::MAX { x + 1 } else { x as int },
{
    if x < usize::MAX {
        x + 1
    } else {
        x
    }
}

fn least(x: usize, y: usize, z: usize) -> (r: usize)
    ensures
        r == min3(x as nat, y as nat, z as nat),
{
    if x <= y && x <= z {
        x
    } else if y <= z {
        y
    } else {
        z
    }
}

/// Edit distance between two character sequences, computed row by row.
pub fn distance_of_chars(a: &Vec<char>, b: &Vec<char>) -> (d: usize)
    ensures
        d == edit_distance(a@, b@),
{
    let n: usize = a.len();
    let m: usize = b.len();
    if m == 0 {
        return n;
    }
    // row[k] holds the distance from the current prefix of `a` to the first
    // k + 1 characters of `b`.
    let mut row: Vec<usize> = Vec::new();
    let mut k: usize = 0;
    while k < m
        invariant
            k <= m,
            row@.len() == k,
            forall|t: int| 0 <= t < k ==> row@[t] == prefix_distance(a@, b@, 0, (t + 1) as nat),
        decreases m - k,
    {
        row.push(k + 1);
        k += 1;
    }
    let mut i: usize = 0;
    while i < n
        invariant
            i <= n,
            n == a@.len(),
            m == b@.len(),
            m > 0,
            row@.len() == m,
            forall|t: int| 0 <= t < m ==> row@[t] == prefix_distance(a@, b@, i as nat, (t + 1) as nat),
        decreases n - i,
    {
        let mut diagonal: usize = i;
        let mut left: usize = i + 1;
        let mut j: usize = 0;
        while j < m
            invariant
                i < n,
                j <= m,
                n == a@.len(),
                m == b@.len(),
                row@.len() == m,
                diagonal == prefix_distance(a@, b@, i as nat, j as nat),
                left == prefix_distance(a@, b@, (i + 1) as nat, j as nat),
                forall|t: int| 0 <= t < j ==> row@[t] == prefix_distance(a@, b@, (i + 1) as nat, (t + 1) as nat),
                forall|t: int| j <= t < m ==> row@[t] == prefix_distance(a@, b@, i as nat, (t + 1) as nat),
            decreases m - j,
        {
            let above: usize = row[j];
            proof {
                lemma_distance_bounded(a@, b@, i as nat, j as nat);
                lemma_distance_bounded(a@, b@, (i + 1) as nat, (j + 1) as nat);
            }
            let change: usize = if a[i] == b[j] { 0 } else { 1 };
            let value: usize = least(successor(above), successor(left), diagonal + change);
            row.set(j, value);
            diagonal = above;
            left = value;
            j += 1;
        }
        i += 1;
    }
    row[m - 1]
}

/// Edit distance between two strings, counted in characters.
pub fn edit_distance_of(a: &str, b: &str) -> (d: usize)
    ensures
        d == edit_distance(a@, b@),
{
    let x = chars_of(a);
    let y = chars_of(b);
    distance_of_chars(&x, &y)
}

/// How far a candidate may be from the requested name, and how many
/// candidates are offered at most.
#[derive(Clone, Copy, Debug, PartialEq, Eq)]
pub struct SuggestionPolicy {
    pub max_distance: usize,
    pub max_suggestions: usize,
}

pub const DEFAULT_MAX_DISTANCE: usize = 3;

pub const DEFAULT_MAX_SUGGESTIONS: usize = 5;

impl SuggestionPolicy {
    /// The policy used when nothing else is configured.
    pub fn standard() -> (p: SuggestionPolicy)
        ensures
            p.max_distance == DEFAULT_MAX_DISTANCE,
            p.max_suggestions == DEFAULT_MAX_SUGGESTIONS,
    {
        SuggestionPolicy {
            max_distance: DEFAULT_MAX_DISTANCE,
            max_suggestions: DEFAULT_MAX_SUGGESTIONS,
        }
    }
}

/// Holds of the names whose distance from `target` is exactly `d`.
pub open spec fn is_at(target: Seq<char>, d: nat) -> spec_fn(Seq<char>) -> bool {
    |c: Seq<char>| edit_distance(target, c) == d
}

/// The candidates at distance exactly `d` from `target`, in their own order.
pub open spec fn at_distance(target: Seq<char>, candidates: Seq<Seq<char>>, d: nat) -> Seq<
    Seq<char>,
> {
    candidates.filter(is_at(target, d))
}

/// The candidates closer to `target` than `bound`, nearest first; candidates
/// equally near keep their own order.
pub open spec fn ranked_below(target: Seq<char>, candidates: Seq<Seq<char>>, bound: nat) -> Seq<
    Seq<char>,
>
    decreases bound,
{
    if bound == 0 {
        Seq::empty()
    } else {
        ranked_below(target, candidates, (bound - 1) as nat) + at_distance(
            target,
            candidates,
            (bound - 1) as nat,
        )
    }
}

/// The first `limit` elements of `s`, or all of `s` where it has fewer.
pub open spec fn first_upto<A>(s: Seq<A>, limit: nat) -> Seq<A> {
    if limit <= s.len() {
        s.take(limit as int)
    } else {
        s
    }
}

/// What is suggested for `target`: the candidates at distance `cutoff` or
/// less, nearest first and otherwise in their own order, `limit` of them at most.
pub open spec fn suggestions(
    target: Seq<char>,
    candidates: Seq<Seq<char>>,
    cutoff: nat,
    limit: nat,
) -> Seq<Seq<char>> {
    first_upto(ranked_below(target, candidates, cutoff + 1), limit)
}

proof fn lemma_at_distance_empty(target: Seq<char>, candidates: Seq<Seq<char>>, d: nat)
    requires
        forall|i: int| 0 <= i < candidates.len() ==> edit_distance(target, candidates[i]) != d,
    ensures
        at_distance(target, candidates, d).len() == 0,
{
    let found = at_distance(target, candidates, d);
    if found.len() > 0 {
        candidates.lemma_filter_pred(is_at(target, d), 0);
        assert(found.contains(found[0]));
        candidates.lemma_filter_contains_rev(is_at(target, d), found[0]);
        let i = choose|i: int| 0 <= i < candidates.len() && candidates[i] == found[0];
        assert(edit_distance(target, candidates[i]) == d);
    }
}

proof fn lemma_ranked_beyond(target: Seq<char>, candidates: Seq<Seq<char>>, far: nat, bound: nat)
    requires
        forall|i: int| 0 <= i < candidates.len() ==> edit_distance(target, candidates[i]) <= far,
        far < bound,
    ensures
        ranked_below(target, candidates, bound) == ranked_below(target, candidates, far + 1),
    decreases bound,
{
    if bound > far + 1 {
        lemma_ranked_beyond(target, candidates, far, (bound - 1) as nat);
        lemma_at_distance_empty(target, candidates, (bound - 1) as nat);
        assert(ranked_below(target, candidates, bound) =~= ranked_below(
            target,
            candidates,
            (bound - 1) as nat,
        ));
    }
}

/// Every name of `ranked_below` is a candidate closer than `bound`, and the
/// names stand in order of growing distance.
pub proof fn lemma_ranked_sorted(target: Seq<char>, candidates: Seq<Seq<char>>, bound: nat)
    ensures
        forall|k: int|
            0 <= k < ranked_below(target, candidates, bound).len() ==> candidates.contains(
                #[trigger] ranked_below(target, candidates, bound)[k],
            ) && edit_distance(target, ranked_below(target, candidates, bound)[k]) < bound,
        forall|k: int, l: int|
            0 <= k <= l < ranked_below(target, candidates, bound).len() ==> edit_distance(
                target,
                #[trigger] ranked_below(target, candidates, bound)[k],
            ) <= edit_distance(target, #[trigger] ranked_below(target, candidates, bound)[l]),
    decreases bound,
{
    if bound > 0 {
        let d = (bound - 1) as nat;
        let head = ranked_below(target, candidates, d);
        let tail = at_distance(target, candidates, d);
        let all = ranked_below(target, candidates, bound);
        lemma_ranked_sorted(target, candidates, d);
        assert forall|k: int| 0 <= k < tail.len() implies candidates.contains(#[trigger] tail[k])
            && edit_distance(target, tail[k]) == d by {
            candidates.lemma_filter_pred(is_at(target, d), k);
            assert(tail.contains(tail[k]));
            candidates.lemma_filter_contains_rev(is_at(target, d), tail[k]);
        }
        assert forall|k: int| 0 <= k < all.len() implies candidates.contains(#[trigger] all[k])
            && edit_distance(target, all[k]) < bound by {
            if k < head.len() {
                assert(all[k] == head[k]);
            } else {
                assert(all[k] == tail[k - head.len()]);
            }
        }
        assert forall|k: int, l: int| 0 <= k <= l < all.len() implies edit_distance(
            target,
            #[trigger] all[k],
        ) <= edit_distance(target, #[trigger] all[l]) by {
            if k < head.len() {
                assert(all[k] == head[k]);
            } else {
                assert(all[k] == tail[k - head.len()]);
            }
            if l < head.len() {
                assert(all[l] == head[l]);
            } else {
                assert(all[l] == tail[l - head.len()]);
            }
        }
    }
}

/// A candidate closer than `bound` occurs in `ranked_below`.
pub proof fn lemma_ranked_holds(
    target: Seq<char>,
    candidates: Seq<Seq<char>>,
    bound: nat,
    i: int,
)
    requires
        0 <= i < candidates.len(),
        edit_distance(target, candidates[i]) < bound,
    ensures
        ranked_below(target, candidates, bound).contains(candidates[i]),
    decreases bound,
{
    let d = (bound - 1) as nat;
    let head = ranked_below(target, candidates, d);
    let tail = at_distance(target, candidates, d);
    if edit_distance(target, candidates[i]) == d {
        candidates.lemma_filter_contains(is_at(target, d), i);
        let k = choose|k: int| 0 <= k < tail.len() && tail[k] == candidates[i];
        assert((head + tail)[head.len() + k] == candidates[i]);
    } else {
        lemma_ranked_holds(target, candidates, d, i);
        let k = choose|k: int| 0 <= k < head.len() && head[k] == candidates[i];
        assert((head + tail)[k] == candidates[i]);
    }
}

/// Nothing is suggested exactly when no candidate is within the cutoff,
/// provided that at least one name may be offered.
pub proof fn lemma_suggestions_empty_iff(
    target: Seq<char>,
    candidates: Seq<Seq<char>>,
    cutoff: nat,
    limit: nat,
)
    requires
        limit > 0,
    ensures
        suggestions(target, candidates, cutoff, limit).len() == 0 <==> (forall|i: int|
            0 <= i < candidates.len() ==> edit_distance(target, #[trigger] candidates[i]) > cutoff),
{
    let all = ranked_below(target, candidates, cutoff + 1);
    let offered = suggestions(target, candidates, cutoff, limit);
    assert(offered.len() == 0 <==> all.len() == 0);
    if all.len() > 0 {
        lemma_ranked_sorted(target, candidates, cutoff + 1);
        assert(candidates.contains(all[0]));
        let i = choose|i: int| 0 <= i < candidates.len() && candidates[i] == all[0];
        assert(edit_distance(target, candidates[i]) <= cutoff);
    } else {
        assert forall|i: int| 0 <= i < candidates.len() implies edit_distance(
            target,
            #[trigger] candidates[i],
        ) > cutoff by {
            if edit_distance(target, candidates[i]) <= cutoff {
                lemma_ranked_holds(target, candidates, cutoff + 1, i);
            }
        }
    }
}

/// What is suggested are candidates within the cutoff, no more than `limit`
/// of them, in order of growing distance from the target.
pub proof fn lemma_suggestions_ranked(
    target: Seq<char>,
    candidates: Seq<Seq<char>>,
    cutoff: nat,
    limit: nat,
)
    ensures
        suggestions(target, candidates, cutoff, limit).len() <= limit,
        forall|k: int|
            0 <= k < suggestions(target, candidates, cutoff, limit).len() ==> candidates.contains(
                #[trigger] suggestions(target, candidates, cutoff, limit)[k],
            ) && edit_distance(target, suggestions(target, candidates, cutoff, limit)[k])
                <= cutoff,
        forall|k: int, l: int|
            0 <= k <= l < suggestions(target, candidates, cutoff, limit).len() ==> edit_distance(
                target,
                #[trigger] suggestions(target, candidates, cutoff, limit)[k],
            ) <= edit_distance(target, #[trigger] suggestions(target, candidates, cutoff, limit)[l]),
{
    let all = ranked_below(target, candidates, cutoff + 1);
    let offered = suggestions(target, candidates, cutoff, limit);
    lemma_ranked_sorted(target, candidates, cutoff + 1);
    assert forall|k: int| 0 <= k < offered.len() implies candidates.contains(#[trigger] offered[k])
        && edit_distance(target, offered[k]) <= cutoff by {
        assert(offered[k] == all[k]);
    }
    assert forall|k: int, l: int| 0 <= k <= l < offered.len() implies edit_distance(
        target,
        #[trigger] offered[k],
    ) <= edit_distance(target, #[trigger] offered[l]) by {
        assert(offered[k] == all[k]);
        assert(offered[l] == all[l]);
    }
}

/// What is kept of candidates of which none occurs twice holds no name
/// twice, and keeps the names in the order in which they stand.
proof fn lemma_kept_in_order(candidates: Seq<Seq<char>>, keep: spec_fn(Seq<char>) -> bool)
    requires
        candidates.no_duplicates(),
    ensures
        candidates.filter(keep).no_duplicates(),
        forall|a: int, b: int, i: int, j: int|
            0 <= a < b < candidates.filter(keep).len() && 0 <= i < candidates.len() && 0 <= j
                < candidates.len() && #[trigger] candidates[i] == #[trigger] candidates.filter(
                keep,
            )[a] && #[trigger] candidates[j] == #[trigger] candidates.filter(keep)[b] ==> i < j,
    decreases candidates.len(),
{
    let kept = candidates.filter(keep);
    if candidates.len() == 0 {
        candidates.lemma_filter_len(keep);
    } else {
        let front = candidates.drop_last();
        let last = candidates.last();
        let before = front.filter(keep);
        assert(candidates =~= front.push(last));
        front.lemma_filter_push(last, keep);
        lemma_kept_in_order(front, keep);
        assert forall|a: int| 0 <= a < before.len() implies exists|i: int|
            0 <= i < front.len() && front[i] == #[trigger] before[a] by {
            assert(before.contains(before[a]));
            front.lemma_filter_contains_rev(keep, before[a]);
        }
        assert forall|a: int, b: int, i: int, j: int|
            0 <= a < b < kept.len() && 0 <= i < candidates.len() && 0 <= j < candidates.len()
                && #[trigger] candidates[i] == #[trigger] kept[a] && #[trigger] candidates[j]
                == #[trigger] kept[b] implies i < j by {
            let at = choose|t: int| 0 <= t < front.len() && front[t] == before[a];
            assert(candidates[at] == candidates[i]);
            if b < before.len() {
                let bt = choose|t: int| 0 <= t < front.len() && front[t] == before[b];
                assert(candidates[bt] == candidates[j]);
                assert(front[i] == before[a] && front[j] == before[b]);
            } else {
                assert(kept[b] == last);
                assert(candidates[candidates.len() - 1] == candidates[j]);
            }
        }
        assert forall|a: int, b: int| 0 <= a < kept.len() && 0 <= b < kept.len() && a != b implies kept[a]
            != kept[b] by {
            let low = if a < b { a } else { b };
            let high = if a < b { b } else { a };
            let at = choose|t: int| 0 <= t < front.len() && front[t] == before[low];
            if high < before.len() {
                assert(before[low] != before[high]);
            } else {
                assert(kept[high] == last);
                assert(candidates[at] != candidates[candidates.len() - 1]);
            }
        }
    }
}

/// Where no candidate occurs twice, no name is ranked twice, and of two
/// names equally near the target the one that stands first among the
/// candidates is ranked first.
pub proof fn lemma_ranked_stable(target: Seq<char>, candidates: Seq<Seq<char>>, bound: nat)
    requires
        candidates.no_duplicates(),
    ensures
        ranked_below(target, candidates, bound).no_duplicates(),
        forall|a: int, b: int, i: int, j: int|
            0 <= a < b < ranked_below(target, candidates, bound).len() && 0 <= i
                < candidates.len() && 0 <= j < candidates.len() && #[trigger] candidates[i]
                == #[trigger] ranked_below(target, candidates, bound)[a]
                && #[trigger] candidates[j] == #[trigger] ranked_below(target, candidates, bound)[b]
                && edit_distance(target, candidates[i]) == edit_distance(target, candidates[j])
                ==> i < j,
    decreases bound,
{
    let all = ranked_below(target, candidates, bound);
    if bound > 0 {
        let d = (bound - 1) as nat;
        let head = ranked_below(target, candidates, d);
        let tail = at_distance(target, candidates, d);
        lemma_ranked_stable(target, candidates, d);
        lemma_ranked_sorted(target, candidates, d);
        lemma_kept_in_order(candidates, is_at(target, d));
        assert forall|k: int| 0 <= k < tail.len() implies edit_distance(target, #[trigger] tail[k])
            == d by {
            candidates.lemma_filter_pred(is_at(target, d), k);
        }
        assert forall|a: int, b: int, i: int, j: int|
            0 <= a < b < all.len() && 0 <= i < candidates.len() && 0 <= j < candidates.len()
                && #[trigger] candidates[i] == #[trigger] all[a] && #[trigger] candidates[j]
                == #[trigger] all[b] && edit_distance(target, candidates[i]) == edit_distance(
                target,
                candidates[j],
            ) implies i < j by {
            if b < head.len() {
                assert(all[a] == head[a] && all[b] == head[b]);
            } else if a < head.len() {
                assert(all[a] == head[a] && all[b] == tail[b - head.len()]);
            } else {
                assert(all[a] == tail[a - head.len()] && all[b] == tail[b - head.len()]);
            }
        }
        assert forall|a: int, b: int| 0 <= a < all.len() && 0 <= b < all.len() && a != b implies all[a]
            != all[b] by {
            let low = if a < b { a } else { b };
            let high = if a < b { b } else { a };
            if high < head.len() {
                assert(all[low] == head[low] && all[high] == head[high]);
            } else if low < head.len() {
                assert(all[low] == head[low] && all[high] == tail[high - head.len()]);
            } else {
                assert(all[low] == tail[low - head.len()] && all[high] == tail[high - head.len()]);
            }
        }
    }
}

/// Where no candidate occurs twice, no name is suggested twice, and of two
/// names equally near the target the one that stands first among the
/// candidates is suggested first.
pub proof fn lemma_suggestions_stable(
    target: Seq<char>,
    candidates: Seq<Seq<char>>,
    cutoff: nat,
    limit: nat,
)
    requires
        candidates.no_duplicates(),
    ensures
        suggestions(target, candidates, cutoff, limit).no_duplicates(),
        forall|a: int, b: int, i: int, j: int|
            0 <= a < b < suggestions(target, candidates, cutoff, limit).len() && 0 <= i
                < candidates.len() && 0 <= j < candidates.len() && #[trigger] candidates[i]
                == #[trigger] suggestions(target, candidates, cutoff, limit)[a]
                && #[trigger] candidates[j] == #[trigger] suggestions(
                target,
                candidates,
                cutoff,
                limit,
            )[b] && edit_distance(target, candidates[i]) == edit_distance(target, candidates[j])
                ==> i < j,
{
    let all = ranked_below(target, candidates, cutoff + 1);
    let offered = suggestions(target, candidates, cutoff, limit);
    lemma_ranked_stable(target, candidates, cutoff + 1);
    assert forall|a: int, b: int, i: int, j: int|
        0 <= a < b < offered.len() && 0 <= i < candidates.len() && 0 <= j < candidates.len()
            && #[trigger] candidates[i] == #[trigger] offered[a] && #[trigger] candidates[j]
            == #[trigger] offered[b] && edit_distance(target, candidates[i]) == edit_distance(
            target,
            candidates[j],
        ) implies i < j by {
        assert(offered[a] == all[a] && offered[b] == all[b]);
    }
    assert forall|a: int, b: int| 0 <= a < offered.len() && 0 <= b < offered.len() && a
        != b implies offered[a] != offered[b] by {
        assert(offered[a] == all[a] && offered[b] == all[b]);
    }
}

/// Ranks `candidates` by their edit distance from `target`.
///
/// `None` says that no candidate is near enough (or that none may be
/// offered); `Some` holds at least one name.
pub fn suggest(target: &str, candidates: &Vec<String>, policy: &SuggestionPolicy) -> (res: Option<
    Vec<String>,
>)
    ensures
        match res {
            Some(list) => list@.len() > 0 && texts(list@) == suggestions(
                target@,
                texts(candidates@),
                policy.max_distance as nat,
                policy.max_suggestions as nat,
            ),
            None => suggestions(
                target@,
                texts(candidates@),
                policy.max_distance as nat,
                policy.max_suggestions as nat,
            ).len() == 0,
        },
{
    let ghost names = texts(candidates@);
    let wanted = chars_of(target);
    let count: usize = candidates.len();
    let mut distances: Vec<usize> = Vec::new();
    let mut far: usize = 0;
    let mut i: usize = 0;
    while i < count
        invariant
            i <= count,
            count == candidates@.len(),
            names == texts(candidates@),
            wanted@ == target@,
            distances@.len() == i,
            forall|t: int| 0 <= t < i ==> distances@[t] == edit_distance(target@, names[t]),
            forall|t: int| 0 <= t < i ==> distances@[t] <= far,
        decreases count - i,
    {
        let name = chars_of(candidates[i].as_str());
        let d: usize = distance_of_chars(&wanted, &name);
        if d > far {
            far = d;
        }
        distances.push(d);
        i += 1;
    }
    let top: usize = if policy.max_distance < far { policy.max_distance } else { far };
    assert forall|t: int| 0 <= t < names.len() implies edit_distance(target@, #[trigger] names[t])
        <= far by {
        assert(distances@[t] <= far);
    }
    let mut out: Vec<String> = Vec::new();
    let mut d: usize = 0;
    loop
        invariant_except_break
            texts(out@) == ranked_below(target@, names, d as nat),
        invariant
            d <= top,
            top <= far,
            top <= policy.max_distance,
            top == far || top == policy.max_distance,
            forall|t: int|
                0 <= t < names.len() ==> edit_distance(target@, #[trigger] names[t]) <= far,
            count == candidates@.len(),
            names == texts(candidates@),
            distances@.len() == count,
            forall|t: int| 0 <= t < count ==> distances@[t] == edit_distance(target@, names[t]),
        ensures
            texts(out@) == ranked_below(target@, names, (top + 1) as nat),
        decreases top - d,
    {
        let mut j: usize = 0;
        assert(names.take(0).filter(is_at(target@, d as nat)) =~= Seq::<Seq<char>>::empty()) by {
            reveal(Seq::filter);
        }
        assert(texts(out@) + Seq::<Seq<char>>::empty() =~= texts(out@));
        while j < count
            invariant
                j <= count,
                count == candidates@.len(),
                names == texts(candidates@),
                distances@.len() == count,
                forall|t: int| 0 <= t < count ==> distances@[t] == edit_distance(target@, names[t]),
                texts(out@) == ranked_below(target@, names, d as nat) + at_distance(
                    target@,
                    names.take(j as int),
                    d as nat,
                ),
            decreases count - j,
        {
            let ghost before = texts(out@);
            proof {
                assert(names.take(j + 1) =~= names.take(j as int).push(names[j as int]));
                names.take(j as int).lemma_filter_push(names[j as int], is_at(target@, d as nat));
            }
            if distances[j] == d {
                let name = candidates[j].clone();
                out.push(name);
                assert(texts(out@) =~= before.push(names[j as int]));
                assert(before.push(names[j as int]) =~= ranked_below(target@, names, d as nat)
                    + at_distance(target@, names.take(j as int), d as nat).push(names[j as int]));
            }
            j += 1;
        }
        assert(names.take(count as int) =~= names);
        if d == top {
            break ;
        }
        d += 1;
    }
    proof {
        if top < policy.max_distance {
            lemma_ranked_beyond(target@, names, far as nat, (policy.max_distance + 1) as nat);
        }
    }
    let ghost full = texts(out@);
    out.truncate(policy.max_suggestions);
    assert(texts(out@) =~= first_upto(full, policy.max_suggestions as nat));
    if out.len() == 0 {
        None
    } else {
        Some(out)
    }
}

} // verus!
