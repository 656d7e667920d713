//! The selector: weighted random choice of the next song.
//!
//! Each candidate weight is squashed through a saturating nonlinearity
//! before sampling, so a single heavily reinforced edge never becomes
//! near-deterministic; a zero weight squashes to exactly zero and is
//! never drawn.  When no candidate has any score, the selector falls
//! back to a uniform choice over the whole library.

use vstd::prelude::*;

use crate::chain::{Chain, outgoing_edges};
use crate::error::SelectionError;
use crate::session::{SessionState, spec_tired};

verus! {

/// Granularity of squashed scores: a squashed score lies in
/// `[0, SQUASH_SCALE]`.
pub const SQUASH_SCALE: u64 = 1000;

/// The squashed score of a weight: `ceil(w * SQUASH_SCALE / (w + mid))`.
/// Zero exactly for weight zero; monotone and saturating towards
/// `SQUASH_SCALE` as the weight grows past the midpoint `mid`.
pub open spec fn squash(w: u32, mid: u32) -> int {
    (w * SQUASH_SCALE + w + mid - 1) / (w + mid)
}

/// A squashed score lies in `[0, SQUASH_SCALE]`, is zero exactly for
/// weight zero, and is at least one for any positive weight.
pub proof fn lemma_squash_bounds(w: u32, mid: u32)
    requires
        mid >= 1,
    ensures
        0 <= squash(w, mid) <= SQUASH_SCALE,
        (squash(w, mid) == 0) <==> (w == 0),
{
    let b = w + mid as int;
    let a = w * (SQUASH_SCALE as int);
    assert(squash(w, mid) == (a + b - 1) / b);
    vstd::arithmetic::div_mod::lemma_div_pos_is_pos(a + b - 1, b);
    if w == 0 {
        vstd::arithmetic::div_mod::lemma_basic_div(b - 1, b);
    } else {
        vstd::arithmetic::div_mod::lemma_div_non_zero(a + b - 1, b);
    }
    assert(a + b - 1 < b * 1001);
    vstd::arithmetic::div_mod::lemma_multiply_divide_lt(a + b - 1, b, 1001);
}

/// Executable squashed score.
pub fn squash_score(w: u32, mid: u32) -> (r: u64)
    requires
        mid >= 1,
    ensures
        r == squash(w, mid),
{
    proof {
        lemma_squash_bounds(w, mid);
    }
    let num: u64 = w as u64 * SQUASH_SCALE + w as u64 + mid as u64 - 1;
    let den: u64 = w as u64 + mid as u64;
    num / den
}

/// The weights of a candidate list.
pub open spec fn weights_of(cands: Seq<(Seq<char>, u32)>) -> Seq<u32> {
    cands.map_values(|c: (Seq<char>, u32)| c.1)
}

/// The sum of all squashed scores.
pub open spec fn total_score(ws: Seq<u32>, mid: u32) -> int
    decreases ws.len(),
{
    if ws.len() == 0 {
        0
    } else {
        squash(ws[0], mid) + total_score(ws.drop_first(), mid)
    }
}

/// The candidate that the point `x` of the cumulative score axis falls
/// on.
pub open spec fn pick_index(ws: Seq<u32>, mid: u32, x: int) -> int
    decreases ws.len(),
{
    if ws.len() == 0 {
        0
    } else if x < squash(ws[0], mid) {
        0
    } else {
        1 + pick_index(ws.drop_first(), mid, x - squash(ws[0], mid))
    }
}

/// The total score is non-negative and at most `SQUASH_SCALE` per
/// candidate.
pub proof fn lemma_total_score_bounds(ws: Seq<u32>, mid: u32)
    requires
        mid >= 1,
    ensures
        0 <= total_score(ws, mid) <= SQUASH_SCALE * ws.len(),
    decreases ws.len(),
{
    if ws.len() == 0 {
    } else {
        lemma_squash_bounds(ws[0], mid);
        lemma_total_score_bounds(ws.drop_first(), mid);
        assert(SQUASH_SCALE * ws.len() == SQUASH_SCALE * ws.drop_first().len() + SQUASH_SCALE)
            by (nonlinear_arith)
            requires
                ws.len() >= 1,
                ws.drop_first().len() == ws.len() - 1,
        ;
    }
}

/// Selection respects zero weight: wherever the draw lands inside the
/// cumulative score range, the candidate it picks exists and its weight
/// is positive — a zero-weight candidate is never picked.
pub proof fn lemma_pick_positive(ws: Seq<u32>, mid: u32, x: int)
    requires
        mid >= 1,
        0 <= x < total_score(ws, mid),
    ensures
        0 <= pick_index(ws, mid, x) < ws.len(),
        ws[pick_index(ws, mid, x)] > 0,
    decreases ws.len(),
{
    if ws.len() == 0 {
    } else {
        lemma_squash_bounds(ws[0], mid);
        if x < squash(ws[0], mid) {
            assert(squash(ws[0], mid) > 0);
        } else {
            lemma_pick_positive(ws.drop_first(), mid, x - squash(ws[0], mid));
            assert(ws[pick_index(ws, mid, x)] == ws.drop_first()[pick_index(
                ws.drop_first(),
                mid,
                x - squash(ws[0], mid),
            )]);
        }
    }
}

/// The outgoing candidates of `from` that are not suppressed by a tired
/// mark.
pub open spec fn eligible(
    out: Seq<(Seq<char>, u32)>,
    tired: Seq<(Seq<char>, u32)>,
) -> Seq<(Seq<char>, u32)>
    decreases out.len(),
{
    if out.len() == 0 {
        Seq::empty()
    } else if spec_tired(tired, out[0].0) {
        eligible(out.drop_first(), tired)
    } else {
        seq![out[0]] + eligible(out.drop_first(), tired)
    }
}

/// The selector's candidate set for `current`: its outgoing edges minus
/// tired targets.
pub open spec fn spec_candidates(
    chain: &Chain,
    current: Seq<char>,
    session: &SessionState,
) -> Seq<(Seq<char>, u32)> {
    eligible(outgoing_edges(chain.edges(), current), session.tired_view())
}

/// The candidate list, as executable values.
#[verifier::loop_isolation(false)]
pub fn candidates(chain: &Chain, current: &str, session: &SessionState) -> (v: Vec<(String, u32)>)
    ensures
        v@.map_values(|p: (String, u32)| (p.0@, p.1)) == spec_candidates(
            chain,
            current@,
            session,
        ),
{
    let out = chain.outgoing(current);
    let ghost outv = out@.map_values(|p: (String, u32)| (p.0@, p.1));
    let n = out.len();
    let mut v: Vec<(String, u32)> = Vec::new();
    let mut i: usize = 0;
    proof {
        assert(outv.skip(0) =~= outv);
        assert(v@.map_values(|p: (String, u32)| (p.0@, p.1)) =~= Seq::<(Seq<char>, u32)>::empty());
    }
    while i < n
        invariant
            n == out@.len(),
            i <= n,
            outv == out@.map_values(|p: (String, u32)| (p.0@, p.1)),
            eligible(outv, session.tired_view()) == v@.map_values(|p: (String, u32)| (p.0@, p.1))
                + eligible(outv.skip(i as int), session.tired_view()),
        decreases n - i,
    {
        let ghost tail = outv.skip(i as int);
        proof {
            assert(tail[0] == outv[i as int]);
            assert(tail.drop_first() =~= outv.skip(i as int + 1));
        }
        let t = session.is_tired(out[i].0.as_str());
        if !t {
            let entry = (out[i].0.clone(), out[i].1);
            proof {
                assert(entry.0@ == out@[i as int].0@);
            }
            v.push(entry);
        }
        proof {
            assert(eligible(outv, session.tired_view()) =~= v@.map_values(
                |p: (String, u32)| (p.0@, p.1),
            ) + eligible(outv.skip(i as int + 1), session.tired_view()));
        }
        i += 1;
    }
    proof {
        assert(eligible(outv.skip(n as int), session.tired_view()) =~= Seq::<(
            Seq<char>,
            u32,
        )>::empty());
        assert(eligible(outv, session.tired_view()) =~= v@.map_values(
            |p: (String, u32)| (p.0@, p.1),
        ));
    }
    v
}

/// Draws the candidate that `draw` lands on, weighted by squashed
/// scores; nothing when every candidate squashes to zero.
#[verifier::loop_isolation(false)]
pub fn pick_weighted(cands: &Vec<(String, u32)>, mid: u32, draw: u64) -> (r: Option<usize>)
    requires
        mid >= 1,
    ensures
        ({
            let ws = weights_of(cands@.map_values(|p: (String, u32)| (p.0@, p.1)));
            &&& (r is Some) == (total_score(ws, mid) > 0)
            &&& r matches Some(i) ==> i < cands@.len() && i as int == pick_index(
                ws,
                mid,
                (draw as int) % total_score(ws, mid),
            )
        }),
{
    let ghost ws = weights_of(cands@.map_values(|p: (String, u32)| (p.0@, p.1)));
    proof {
        assert(ws.len() == cands@.len());
        assert(forall|k: int| 0 <= k < ws.len() ==> ws[k] == cands@[k].1);
    }
    let n = cands.len();

    // Sum all squashed scores.
    let mut total: u128 = 0;
    let mut i: usize = 0;
    proof {
        assert(ws.skip(0) =~= ws);
        lemma_total_score_bounds(ws, mid);
    }
    while i < n
        invariant
            mid >= 1,
            n == cands@.len(),
            i <= n,
            ws == weights_of(cands@.map_values(|p: (String, u32)| (p.0@, p.1))),
            ws.len() == n,
            forall|k: int| 0 <= k < ws.len() ==> ws[k] == cands@[k].1,
            total == total_score(ws, mid) - total_score(ws.skip(i as int), mid),
            0 <= total <= SQUASH_SCALE * i,
        decreases n - i,
    {
        let ghost tail = ws.skip(i as int);
        proof {
            assert(tail[0] == ws[i as int]);
            assert(tail.drop_first() =~= ws.skip(i as int + 1));
            lemma_squash_bounds(ws[i as int], mid);
            lemma_total_score_bounds(ws.skip(i as int + 1), mid);
            assert(SQUASH_SCALE * i + SQUASH_SCALE == SQUASH_SCALE * (i + 1)) by (nonlinear_arith);
        }
        let sc = squash_score(cands[i].1, mid);
        total = total + sc as u128;
        i += 1;
    }
    proof {
        assert(ws.skip(n as int) =~= Seq::<u32>::empty());
        assert(total == total_score(ws, mid));
    }
    if total == 0 {
        return None;
    }

    // Walk the cumulative axis to the candidate the draw lands on.
    let ghost x0 = (draw as int) % total_score(ws, mid);
    let mut x: u128 = (draw as u128) % total;
    let mut j: usize = 0;
    proof {
        assert(x as int == x0);
        assert(ws.skip(0) =~= ws);
        assert(pick_index(ws, mid, x0) == 0 + pick_index(ws.skip(0), mid, x as int));
    }
    loop
        invariant
            mid >= 1,
            n == cands@.len(),
            ws.len() == n,
            forall|k: int| 0 <= k < ws.len() ==> ws[k] == cands@[k].1,
            j <= n,
            0 <= x as int,
            (x as int) < total_score(ws.skip(j as int), mid),
            pick_index(ws, mid, x0) == j + pick_index(ws.skip(j as int), mid, x as int),
        decreases n - j,
    {
        let ghost tail = ws.skip(j as int);
        proof {
            assert(tail.len() > 0) by {
                if tail.len() == 0 {
                    assert(total_score(tail, mid) == 0);
                }
            }
            assert(j < n);
            assert(tail[0] == ws[j as int]);
            assert(tail.drop_first() =~= ws.skip(j as int + 1));
            lemma_squash_bounds(ws[j as int], mid);
        }
        let sc = squash_score(cands[j].1, mid);
        if x < sc as u128 {
            proof {
                assert(pick_index(tail, mid, x as int) == 0);
            }
            return Some(j);
        }
        x = x - sc as u128;
        j += 1;
    }
}

/// Relies on rand::random_range: a sample drawn uniformly from the
/// half-open range, so the result lies below the bound.
#[verifier::external_body]
fn random_below(n: u64) -> (r: u64)
    requires
        n >= 1,
    ensures
        r < n,
{
    rand::random_range(0..n)
}

/// An unconstrained random draw for the selector.
pub fn random_draw() -> u64 {
    random_below(u64::MAX)
}

/// Deterministic selection: given the current song, the store, the
/// session and a draw, picks the next song.  Weighted choice among the
/// eligible outgoing edges when any has a positive score; otherwise a
/// uniform fallback over the library; an error exactly when even the
/// library is empty.
pub fn select_next_with(
    chain: &Chain,
    current: &str,
    session: &SessionState,
    library: &Vec<String>,
    mid: u32,
    draw: u64,
) -> (r: Result<String, SelectionError>)
    requires
        mid >= 1,
    ensures
        ({
            let cands = spec_candidates(chain, current@, session);
            let t = total_score(weights_of(cands), mid);
            &&& t > 0 ==> (r matches Ok(song) && song@ == cands[pick_index(
                weights_of(cands),
                mid,
                (draw as int) % t,
            )].0)
            &&& t <= 0 && library@.len() > 0 ==> (r matches Ok(song) && song@ == library@[(
            draw as int) % (library@.len() as int)]@)
            &&& t <= 0 && library@.len() == 0 ==> r == Err::<String, SelectionError>(
                SelectionError::EmptyLibrary,
            )
        }),
{
    let cands = candidates(chain, current, session);
    let ghost candv = spec_candidates(chain, current@, session);
    let ghost ws = weights_of(candv);
    match pick_weighted(&cands, mid, draw) {
        Some(i) => {
            proof {
                vstd::arithmetic::div_mod::lemma_mod_bound(draw as int, total_score(ws, mid));
                lemma_pick_positive(ws, mid, (draw as int) % total_score(ws, mid));
            }
            Ok(cands[i].0.clone())
        },
        None => {
            if library.len() == 0 {
                Err(SelectionError::EmptyLibrary)
            } else {
                proof {
                    vstd::arithmetic::div_mod::lemma_mod_bound(
                        draw as int,
                        library@.len() as int,
                    );
                }
                let k = (draw % library.len() as u64) as usize;
                Ok(library[k].clone())
            }
        },
    }
}

/// Random selection: as `select_next_with`, with a fresh random draw.
/// Whatever the draw, the result is an eligible candidate of positive
/// weight when any candidate has a positive score, a library song when
/// none has, and an error exactly when even the library is empty.
pub fn select_next(
    chain: &Chain,
    current: &str,
    session: &SessionState,
    library: &Vec<String>,
    mid: u32,
) -> (r: Result<String, SelectionError>)
    requires
        mid >= 1,
    ensures
        ({
            let cands = spec_candidates(chain, current@, session);
            let t = total_score(weights_of(cands), mid);
            &&& t > 0 ==> (r matches Ok(song) && (exists|k: int|
                0 <= k < cands.len() && (#[trigger] cands[k]).0 == song@ && cands[k].1 > 0))
            &&& t <= 0 && library@.len() > 0 ==> (r matches Ok(song) && (exists|k: int|
                0 <= k < library@.len() && (#[trigger] library@[k])@ == song@))
            &&& (r is Err) <==> (t <= 0 && library@.len() == 0)
            &&& r matches Err(e) ==> e == SelectionError::EmptyLibrary
        }),
{
    let draw = random_draw();
    let ghost candv = spec_candidates(chain, current@, session);
    let ghost ws = weights_of(candv);
    let r = select_next_with(chain, current, session, library, mid, draw);
    proof {
        let t = total_score(ws, mid);
        if t > 0 {
            vstd::arithmetic::div_mod::lemma_mod_bound(draw as int, t);
            lemma_pick_positive(ws, mid, (draw as int) % t);
            let i = pick_index(ws, mid, (draw as int) % t);
            assert(ws[i] == candv[i].1);
        } else if library@.len() > 0 {
            vstd::arithmetic::div_mod::lemma_mod_bound(draw as int, library@.len() as int);
        }
    }
    r
}

} // verus!
