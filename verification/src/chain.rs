//! The transition store: a directed graph of songs whose edge weights
//! record learned affinity between consecutive plays.
//!
//! Weights are plain integer units clamped into `[0, weight_max]`; a
//! weight of zero is equivalent to the edge being absent.  At most one
//! edge exists per ordered `(song, next)` pair.

use vstd::prelude::*;

use crate::policy::clamped;

verus! {

/// One directed weighted edge: having just played `song`, playing `next`
/// has accumulated `weight` units of affinity.
#[derive(Debug)]
pub struct Association {
    /// The song that was playing.
    pub song: String,
    /// The song observed or reinforced as its successor.
    pub next: String,
    /// Learned affinity, in plain weight units.
    pub weight: u32,
}

/// The mathematical content of an edge: both identifiers and the weight.
pub type EdgeView = (Seq<char>, Seq<char>, u32);

impl View for Association {
    type V = EdgeView;

    open spec fn view(&self) -> EdgeView {
        (self.song@, self.next@, self.weight)
    }
}

/// The weight of the first edge matching `(from, to)`, or zero when no
/// edge matches: absence and weight zero are the same thing.
pub open spec fn edge_weight(es: Seq<EdgeView>, from: Seq<char>, to: Seq<char>) -> u32
    decreases es.len(),
{
    if es.len() == 0 {
        0u32
    } else if es[0].0 == from && es[0].1 == to {
        es[0].2
    } else {
        edge_weight(es.drop_first(), from, to)
    }
}

/// No two edges share their ordered `(from, to)` pair.
pub open spec fn edges_unique(es: Seq<EdgeView>) -> bool {
    forall|i: int, j: int|
        0 <= i < j < es.len() ==> !((#[trigger] es[i]).0 == (#[trigger] es[j]).0 && es[i].1
            == es[j].1)
}

/// The outgoing edges of `from`, in store order, as `(to, weight)` pairs.
pub open spec fn outgoing_edges(es: Seq<EdgeView>, from: Seq<char>) -> Seq<(Seq<char>, u32)>
    decreases es.len(),
{
    if es.len() == 0 {
        Seq::empty()
    } else if es[0].0 == from {
        seq![(es[0].1, es[0].2)] + outgoing_edges(es.drop_first(), from)
    } else {
        outgoing_edges(es.drop_first(), from)
    }
}

/// The sources of positive-weight edges into `to`, in store order.
pub open spec fn incoming_sources(es: Seq<EdgeView>, to: Seq<char>) -> Seq<Seq<char>>
    decreases es.len(),
{
    if es.len() == 0 {
        Seq::empty()
    } else if es[0].1 == to && es[0].2 > 0 {
        seq![es[0].0] + incoming_sources(es.drop_first(), to)
    } else {
        incoming_sources(es.drop_first(), to)
    }
}

/// If an element matches `(from, to)` and nothing before it does, the
/// stored weight is that element's weight.
pub proof fn lemma_edge_weight_first_match(es: Seq<EdgeView>, i: int, from: Seq<char>, to: Seq<char>)
    requires
        0 <= i < es.len(),
        es[i].0 == from && es[i].1 == to,
        forall|j: int| 0 <= j < i ==> !((#[trigger] es[j]).0 == from && es[j].1 == to),
    ensures
        edge_weight(es, from, to) == es[i].2,
    decreases i,
{
    if i > 0 {
        assert(es.drop_first()[i - 1] == es[i]);
        assert(forall|j: int|
            0 <= j < i - 1 ==> #[trigger] es.drop_first()[j] == es[j + 1]);
        lemma_edge_weight_first_match(es.drop_first(), i - 1, from, to);
    }
}

/// If no element matches `(from, to)`, the stored weight is zero.
pub proof fn lemma_edge_weight_no_match(es: Seq<EdgeView>, from: Seq<char>, to: Seq<char>)
    requires
        forall|j: int| 0 <= j < es.len() ==> !((#[trigger] es[j]).0 == from && es[j].1 == to),
    ensures
        edge_weight(es, from, to) == 0,
    decreases es.len(),
{
    if es.len() > 0 {
        assert(forall|j: int|
            0 <= j < es.drop_first().len() ==> #[trigger] es.drop_first()[j] == es[j + 1]);
        lemma_edge_weight_no_match(es.drop_first(), from, to);
    }
}

/// Two edge lists that agree about which positions match `(from, to)`,
/// and about the weight wherever they do match, store the same weight.
pub proof fn lemma_edge_weight_agree(
    es1: Seq<EdgeView>,
    es2: Seq<EdgeView>,
    from: Seq<char>,
    to: Seq<char>,
)
    requires
        es1.len() == es2.len(),
        forall|j: int|
            0 <= j < es1.len() ==> (((#[trigger] es1[j]).0 == from && es1[j].1 == to) <==> ((
            #[trigger] es2[j]).0 == from && es2[j].1 == to)),
        forall|j: int|
            0 <= j < es1.len() && (#[trigger] es1[j]).0 == from && es1[j].1 == to ==> es1[j].2
                == es2[j].2,
    ensures
        edge_weight(es1, from, to) == edge_weight(es2, from, to),
    decreases es1.len(),
{
    if es1.len() > 0 {
        if es1[0].0 == from && es1[0].1 == to {
        } else {
            assert(forall|j: int|
                0 <= j < es1.drop_first().len() ==> #[trigger] es1.drop_first()[j] == es1[j + 1]);
            assert(forall|j: int|
                0 <= j < es2.drop_first().len() ==> #[trigger] es2.drop_first()[j] == es2[j + 1]);
            lemma_edge_weight_agree(es1.drop_first(), es2.drop_first(), from, to);
        }
    }
}

/// Appending an edge for a different pair does not change the stored
/// weight of `(from, to)`.
pub proof fn lemma_edge_weight_push_other(
    es: Seq<EdgeView>,
    e: EdgeView,
    from: Seq<char>,
    to: Seq<char>,
)
    requires
        !(e.0 == from && e.1 == to),
    ensures
        edge_weight(es.push(e), from, to) == edge_weight(es, from, to),
    decreases es.len(),
{
    let p = es.push(e);
    assert(p.len() == es.len() + 1);
    assert(p[0] == if es.len() == 0 { e } else { es[0] });
    if es.len() == 0 {
        assert(p.drop_first() =~= Seq::<EdgeView>::empty());
        assert(edge_weight(p, from, to) == edge_weight(p.drop_first(), from, to));
        assert(edge_weight(p.drop_first(), from, to) == 0);
        assert(edge_weight(es, from, to) == 0);
    } else {
        assert(p.drop_first() =~= es.drop_first().push(e));
        lemma_edge_weight_push_other(es.drop_first(), e, from, to);
        if es[0].0 == from && es[0].1 == to {
            assert(edge_weight(p, from, to) == p[0].2);
            assert(edge_weight(es, from, to) == es[0].2);
        } else {
            assert(edge_weight(p, from, to) == edge_weight(p.drop_first(), from, to));
            assert(edge_weight(es, from, to) == edge_weight(es.drop_first(), from, to));
        }
    }
}

/// The transition store: every learned association, the weight ceiling
/// they are clamped to, and a flag saying whether the store has changed
/// since it was last persisted.
#[derive(Debug)]
pub struct Chain {
    /// All edges; unique per ordered pair, weights within the ceiling.
    pub assocs: Vec<Association>,
    /// Ceiling that every stored weight is clamped to.
    pub weight_max: u32,
    /// Whether the store differs from its last persisted image.
    pub dirty: bool,
}

impl Chain {
    /// The store's mathematical content: its edges, in order.
    pub open spec fn edges(&self) -> Seq<EdgeView> {
        self.assocs@.map_values(|a: Association| a@)
    }

    /// Well-formed: weights within the ceiling, one edge per pair.
    pub open spec fn wf(&self) -> bool {
        &&& forall|i: int|
            0 <= i < self.edges().len() ==> (#[trigger] self.edges()[i]).2 <= self.weight_max
        &&& edges_unique(self.edges())
    }

    /// An empty store under the given weight ceiling.
    pub fn new(weight_max: u32) -> (c: Self)
        ensures
            c.wf(),
            c.edges() =~= Seq::<EdgeView>::empty(),
            c.weight_max == weight_max,
            !c.dirty,
    {
        let c = Chain { assocs: Vec::new(), weight_max, dirty: false };
        proof {
            assert(c.edges() =~= Seq::<EdgeView>::empty());
        }
        c
    }

    /// The index of the edge for `(from, to)`, if the store has one.
    fn find_edge(&self, from: &str, to: &str) -> (r: Option<usize>)
        ensures
            match r {
                Some(i) => i < self.edges().len() && self.edges()[i as int].0 == from@
                    && self.edges()[i as int].1 == to@ && (forall|j: int|
                    0 <= j < i ==> !((#[trigger] self.edges()[j]).0 == from@ && self.edges()[j].1
                        == to@)),
                None => forall|j: int|
                    0 <= j < self.edges().len() ==> !((#[trigger] self.edges()[j]).0 == from@
                        && self.edges()[j].1 == to@),
            },
    {
        let n = self.assocs.len();
        let mut i: usize = 0;
        while i < n
            invariant
                n == self.assocs.len(),
                i <= n,
                forall|j: int|
                    0 <= j < i ==> !((#[trigger] self.edges()[j]).0 == from@ && self.edges()[j].1
                        == to@),
            decreases n - i,
        {
            let a = &self.assocs[i];
            if str_eq(a.song.as_str(), from) && str_eq(a.next.as_str(), to) {
                return Some(i);
            }
            i += 1;
        }
        None
    }

    /// The current weight of `(from, to)`: zero when no edge exists.
    /// Never fails.
    pub fn get_weight(&self, from: &str, to: &str) -> (w: u32)
        ensures
            w == edge_weight(self.edges(), from@, to@),
    {
        match self.find_edge(from, to) {
            Some(i) => {
                proof {
                    lemma_edge_weight_first_match(self.edges(), i as int, from@, to@);
                }
                self.assocs[i].weight
            },
            None => {
                proof {
                    lemma_edge_weight_no_match(self.edges(), from@, to@);
                }
                0
            },
        }
    }

    /// Stores `weight` for `(from, to)`, clamped into `[0, weight_max]`,
    /// creating the edge when absent; every other pair keeps its weight,
    /// and the store becomes dirty.
    pub fn set_weight(&mut self, from: &str, to: &str, weight: i64)
        requires
            old(self).wf(),
        ensures
            final(self).wf(),
            final(self).weight_max == old(self).weight_max,
            final(self).dirty,
            forall|f: Seq<char>, t: Seq<char>|
                #[trigger] edge_weight(final(self).edges(), f, t) == (if f == from@ && t == to@ {
                    clamped(weight as int, old(self).weight_max)
                } else {
                    edge_weight(old(self).edges(), f, t)
                }),
    {
        let w = clamp_weight(weight, self.weight_max);
        let ghost es_old = self.edges();
        match self.find_edge(from, to) {
            Some(i) => {
                self.assocs[i].weight = w;
                proof {
                    let es_new = self.edges();
                    assert(es_new =~= es_old.update(i as int, (from@, to@, w)));
                    assert forall|f: Seq<char>, t: Seq<char>|
                        #[trigger] edge_weight(es_new, f, t) == (if f == from@ && t == to@ {
                            clamped(weight as int, old(self).weight_max)
                        } else {
                            edge_weight(es_old, f, t)
                        }) by {
                        if f == from@ && t == to@ {
                            lemma_edge_weight_first_match(es_new, i as int, f, t);
                        } else {
                            lemma_edge_weight_agree(es_new, es_old, f, t);
                        }
                    }
                }
            },
            None => {
                let a = Association { song: from.to_owned(), next: to.to_owned(), weight: w };
                proof {
                    assert(a@ == (from@, to@, w));
                }
                self.assocs.push(a);
                proof {
                    let es_new = self.edges();
                    assert(es_new =~= es_old.push((from@, to@, w)));
                    assert forall|f: Seq<char>, t: Seq<char>|
                        #[trigger] edge_weight(es_new, f, t) == (if f == from@ && t == to@ {
                            clamped(weight as int, old(self).weight_max)
                        } else {
                            edge_weight(es_old, f, t)
                        }) by {
                        if f == from@ && t == to@ {
                            lemma_edge_weight_first_match(es_new, es_old.len() as int, f, t);
                        } else {
                            lemma_edge_weight_push_other(es_old, (from@, to@, w), f, t);
                        }
                    }
                }
            },
        }
        self.dirty = true;
    }

    /// All outgoing edges of `from`, in store order, as `(to, weight)`.
    pub fn outgoing(&self, from: &str) -> (v: Vec<(String, u32)>)
        ensures
            v@.map_values(|p: (String, u32)| (p.0@, p.1)) =~= outgoing_edges(
                self.edges(),
                from@,
            ),
    {
        let n = self.assocs.len();
        let mut v: Vec<(String, u32)> = Vec::new();
        let mut i: usize = 0;
        proof {
            assert(self.edges().skip(0) =~= self.edges());
        }
        while i < n
            invariant
                n == self.assocs.len(),
                i <= n,
                outgoing_edges(self.edges(), from@) =~= v@.map_values(
                    |p: (String, u32)| (p.0@, p.1),
                ) + outgoing_edges(self.edges().skip(i as int), from@),
            decreases n - i,
        {
            let ghost tail = self.edges().skip(i as int);
            proof {
                assert(tail[0] == self.edges()[i as int]);
                assert(tail.drop_first() =~= self.edges().skip(i as int + 1));
            }
            let a = &self.assocs[i];
            if str_eq(a.song.as_str(), from) {
                let entry = (a.next.clone(), a.weight);
                proof {
                    assert(entry.0@ == a.next@);
                }
                v.push(entry);
            }
            proof {
                assert(outgoing_edges(self.edges(), from@) =~= v@.map_values(
                    |p: (String, u32)| (p.0@, p.1),
                ) + outgoing_edges(self.edges().skip(i as int + 1), from@));
            }
            i += 1;
        }
        proof {
            assert(outgoing_edges(self.edges().skip(n as int), from@) =~= Seq::<(
                Seq<char>,
                u32,
            )>::empty());
        }
        v
    }

    /// The songs with a positive-weight edge into `to`, in store order.
    pub fn incoming(&self, to: &str) -> (v: Vec<String>)
        ensures
            v@.map_values(|s: String| s@) =~= incoming_sources(self.edges(), to@),
    {
        let n = self.assocs.len();
        let mut v: Vec<String> = Vec::new();
        let mut i: usize = 0;
        proof {
            assert(self.edges().skip(0) =~= self.edges());
        }
        while i < n
            invariant
                n == self.assocs.len(),
                i <= n,
                incoming_sources(self.edges(), to@) =~= v@.map_values(|s: String| s@)
                    + incoming_sources(self.edges().skip(i as int), to@),
            decreases n - i,
        {
            let ghost tail = self.edges().skip(i as int);
            proof {
                assert(tail[0] == self.edges()[i as int]);
                assert(tail.drop_first() =~= self.edges().skip(i as int + 1));
            }
            let a = &self.assocs[i];
            if a.weight > 0 && str_eq(a.next.as_str(), to) {
                let entry = a.song.clone();
                proof {
                    assert(entry@ == a.song@);
                }
                v.push(entry);
            }
            proof {
                assert(incoming_sources(self.edges(), to@) =~= v@.map_values(|s: String| s@)
                    + incoming_sources(self.edges().skip(i as int + 1), to@));
            }
            i += 1;
        }
        proof {
            assert(incoming_sources(self.edges().skip(n as int), to@) =~= Seq::<
                Seq<char>,
            >::empty());
        }
        v
    }

    /// Whether the store has changed since it was last persisted.
    pub fn is_dirty(&self) -> (r: bool)
        ensures
            r == self.dirty,
    {
        self.dirty
    }

    /// Records that the store's current content has been persisted.
    pub fn mark_clean(&mut self)
        ensures
            *final(self) == (Chain { dirty: false, ..*old(self) }),
    {
        self.dirty = false;
    }

    /// Number of stored edges.
    pub fn edge_count(&self) -> (n: usize)
        ensures
            n == self.edges().len(),
    {
        self.assocs.len()
    }
}

/// String equality by content.
pub fn str_eq(a: &str, b: &str) -> (r: bool)
    ensures
        r == (a@ == b@),
{
    let x: String = a.to_owned();
    let y: String = b.to_owned();
    x == y
}

/// The clamp of `[0, max]` as executable arithmetic.
fn clamp_weight(w: i64, max: u32) -> (r: u32)
    ensures
        r == clamped(w as int, max),
{
    if w < 0 {
        0
    } else if w > max as i64 {
        max
    } else {
        w as u32
    }
}

} // verus!
