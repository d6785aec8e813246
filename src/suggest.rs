//! Nearest-name suggestions for unknown identifiers, by edit distance.
use vstd::prelude::*;
use vstd::string::StringExecFns;
use crate::diagnostic::views;
use crate::text::{chars_of, char_lower, lower};

verus! {

pub open spec fn min3(x: nat, y: nat, z: nat) -> nat {
    if x <= y && x <= z {
        x
    } else if y <= z {
        y
    } else {
        z
    }
}

/// The Levenshtein distance: the fewest single-character insertions,
/// deletions and substitutions that turn `a` into `b`.
pub open spec fn edit_distance(a: Seq<char>, b: Seq<char>) -> nat
    decreases a.len() + b.len(),
{
    if a.len() == 0 {
        b.len()
    } else if b.len() == 0 {
        a.len()
    } else {
        min3(
            edit_distance(a.drop_last(), b) + 1,
            edit_distance(a, b.drop_last()) + 1,
            edit_distance(a.drop_last(), b.drop_last()) + if a.last() == b.last() {
                0nat
            } else {
                1nat
            },
        )
    }
}

/// Candidates within this many edits of a name are worth suggesting.
pub const MAX_SUGGESTION_DISTANCE: usize = 3;

/// The edit distance, or one more than `MAX_SUGGESTION_DISTANCE` when it is
/// larger than that.
pub open spec fn near_distance(a: Seq<char>, b: Seq<char>) -> nat {
    capped(edit_distance(a, b))
}

pub open spec fn capped(x: nat) -> nat {
    if x > MAX_SUGGESTION_DISTANCE + 1 {
        (MAX_SUGGESTION_DISTANCE + 1) as nat
    } else {
        x
    }
}

fn cap(x: usize) -> (r: usize)
    ensures
        r == capped(x as nat),
{
    if x > MAX_SUGGESTION_DISTANCE + 1 {
        MAX_SUGGESTION_DISTANCE + 1
    } else {
        x
    }
}

/// The edit distance between `a` and `b`, capped at one more than
/// `MAX_SUGGESTION_DISTANCE`.
pub fn capped_distance(a: &Vec<char>, b: &Vec<char>) -> (r: usize)
    ensures
        r == near_distance(a@, b@),
{
    let n = a.len();
    let m = b.len();
    let mut prev: Vec<usize> = Vec::new();
    proof {
        assert(a@.take(0).len() == 0 && b@.take(0).len() == 0);
    }
    prev.push(0);
    let mut j: usize = 0;
    while j < m
        invariant
            m == b.len(),
            j <= m,
            prev@.len() == j + 1,
            forall|k: int| 0 <= k <= j ==> prev@[k] == near_distance(a@.take(0), b@.take(k)),
        decreases m - j,
    {
        j = j + 1;
        proof {
            assert(a@.take(0).len() == 0);
            assert(b@.take(j as int).len() == j);
        }
        prev.push(cap(j));
    }
    let mut i: usize = 0;
    while i < n
        invariant
            n == a.len(),
            m == b.len(),
            i <= n,
            prev@.len() == m + 1,
            forall|k: int| 0 <= k <= m ==> prev@[k] == near_distance(a@.take(i as int), b@.take(k)),
        decreases n - i,
    {
        i = i + 1;
        let mut cur: Vec<usize> = Vec::new();
        proof {
            assert(b@.take(0).len() == 0);
            assert(a@.take(i as int).len() == i);
        }
        cur.push(cap(i));
        let mut k: usize = 0;
        while k < m
            invariant
                n == a.len(),
                m == b.len(),
                1 <= i <= n,
                k <= m,
                prev@.len() == m + 1,
                forall|x: int| 0 <= x <= m ==> prev@[x] == near_distance(a@.take(i - 1), b@.take(x)),
                cur@.len() == k + 1,
                forall|x: int| 0 <= x <= k ==> cur@[x] == near_distance(a@.take(i as int), b@.take(x)),
            decreases m - k,
        {
            k = k + 1;
            let ghost ai = a@.take(i as int);
            let ghost bk = b@.take(k as int);
            proof {
                assert(ai.drop_last() =~= a@.take(i - 1));
                assert(bk.drop_last() =~= b@.take(k - 1));
                assert(ai.last() == a@[i - 1]);
                assert(bk.last() == b@[k - 1]);
            }
            let del = prev[k] + 1;
            let ins = cur[k - 1] + 1;
            let sub = prev[k - 1] + if a[i - 1] == b[k - 1] { 0 } else { 1 };
            let best = if del <= ins && del <= sub {
                del
            } else if ins <= sub {
                ins
            } else {
                sub
            };
            cur.push(cap(best));
        }
        prev = cur;
    }
    proof {
        assert(a@.take(n as int) =~= a@);
        assert(b@.take(m as int) =~= b@);
    }
    prev[m]
}

/// The candidate to suggest for `name`: the nearest of `cands` (ignoring
/// ASCII case) within `MAX_SUGGESTION_DISTANCE` edits, the first of equally
/// near ones; none if no candidate is that near.
pub open spec fn best_match(name: Seq<char>, cands: Seq<Seq<char>>) -> Option<int>
    decreases cands.len(),
{
    if cands.len() == 0 {
        None
    } else {
        let prev = best_match(name, cands.drop_last());
        let d = near_distance(lower(name), lower(cands.last()));
        if d > MAX_SUGGESTION_DISTANCE {
            prev
        } else {
            match prev {
                None => Some(cands.len() - 1),
                Some(p) => if d < near_distance(lower(name), lower(cands[p])) {
                    Some(cands.len() - 1)
                } else {
                    prev
                },
            }
        }
    }
}

proof fn lemma_best_match_bounds(name: Seq<char>, cands: Seq<Seq<char>>)
    ensures
        best_match(name, cands) is Some ==> 0 <= best_match(name, cands)->0 < cands.len(),
    decreases cands.len(),
{
    if cands.len() > 0 {
        lemma_best_match_bounds(name, cands.drop_last());
    }
}

fn lowered(s: &str) -> (r: Vec<char>)
    ensures
        r@ == lower(s@),
{
    let cs = chars_of(s);
    let mut r: Vec<char> = Vec::new();
    let mut i: usize = 0;
    while i < cs.len()
        invariant
            i <= cs.len(),
            cs@ == s@,
            r@ == lower(cs@.take(i as int)),
        decreases cs.len() - i,
    {
        r.push(char_lower(cs[i]));
        i = i + 1;
        assert(r@ =~= lower(cs@.take(i as int)));
    }
    assert(cs@.take(cs.len() as int) =~= cs@);
    r
}

/// The suggestion for an unknown `name` among the known `candidates`.
pub fn nearest_name(name: &str, candidates: &Vec<String>) -> (r: Option<usize>)
    ensures
        r is None <==> best_match(name@, views(candidates@)) is None,
        r is Some ==> r->0 == best_match(name@, views(candidates@))->0,
{
    let n = lowered(name);
    let mut best: Option<usize> = None;
    let mut best_d: usize = 0;
    let mut i: usize = 0;
    proof {
        assert(views(candidates@).take(0) =~= Seq::<Seq<char>>::empty());
    }
    while i < candidates.len()
        invariant
            i <= candidates.len(),
            n@ == lower(name@),
            best == match best_match(name@, views(candidates@).take(i as int)) {
                Some(p) => Some(p as usize),
                None => None::<usize>,
            },
            best_match(name@, views(candidates@).take(i as int)) is Some ==> 0 <= best_match(
                name@,
                views(candidates@).take(i as int),
            )->0 < i && best_d == near_distance(
                lower(name@),
                lower(views(candidates@)[best_match(name@, views(candidates@).take(i as int))->0]),
            ),
        decreases candidates.len() - i,
    {
        let ghost vs = views(candidates@);
        proof {
            assert(vs.take(i + 1).drop_last() =~= vs.take(i as int));
            assert(vs.take(i + 1).last() == candidates@[i as int]@);
            lemma_best_match_bounds(name@, vs.take(i as int));
            if best_match(name@, vs.take(i as int)) is Some {
                let p = best_match(name@, vs.take(i as int))->0;
                assert(vs.take(i + 1)[p] == vs[p]);
            }
        }
        let c = lowered(candidates[i].as_str());
        let d = capped_distance(&n, &c);
        if d <= MAX_SUGGESTION_DISTANCE {
            match best {
                None => {
                    best = Some(i);
                    best_d = d;
                },
                Some(_) => {
                    if d < best_d {
                        best = Some(i);
                        best_d = d;
                    }
                },
            }
        }
        i = i + 1;
    }
    proof {
        assert(views(candidates@).take(i as int) =~= views(candidates@));
    }
    best
}

/// The help text that suggests `cand`.
pub open spec fn suggestion_text(cand: Seq<char>) -> Seq<char> {
    "Did you mean '"@ + cand + "'?"@
}

/// The help sentence for an unknown `name` among `cands`, if any.
pub open spec fn suggestion_for(name: Seq<char>, cands: Seq<Seq<char>>) -> Option<Seq<char>> {
    match best_match(name, cands) {
        Some(i) => Some(suggestion_text(cands[i])),
        None => None,
    }
}

/// A help sentence suggesting the candidate nearest to `name`, if any.
pub fn suggestion(name: &str, candidates: &Vec<String>) -> (r: Option<String>)
    ensures
        match r {
            Some(h) => Some(h@),
            None => None,
        } == suggestion_for(name@, views(candidates@)),
        r is None <==> best_match(name@, views(candidates@)) is None,
        r is Some ==> r->0@ == suggestion_text(views(candidates@)[best_match(name@, views(candidates@))->0]),
{
    match nearest_name(name, candidates) {
        Some(i) => {
            proof {
                lemma_best_match_bounds(name@, views(candidates@));
            }
            let mut m = String::from_str("Did you mean '");
            m.append(candidates[i].as_str());
            m.append("'?");
            Some(m)
        },
        None => None,
    }
}

} // verus!
