use vstd::prelude::*;

verus! {

/// What one traced light path contributes to a pixel sample.
#[derive(Clone, Copy, Debug, PartialEq, Eq, Structural)]
pub enum Shade {
    /// The bounce budget ran out: the path contributes black.
    Black,
    /// The path escaped the scene: the background colour seen along its last
    /// ray, halved once per bounce taken before it escaped.
    Sky { halvings: usize },
}

/// What the renderer does next with the current ray.
#[derive(Clone, Copy, Debug, PartialEq, Eq, Structural)]
pub enum Step {
    /// The ray struck a surface: trace the diffuse bounce ray from the hit point.
    Bounce,
    /// The path is finished with this shade.
    Done(Shade),
}

/// The bounce budget of one light path and the bounces it has taken so far.
#[derive(Clone, Copy, Debug, PartialEq, Eq, Structural)]
pub struct Path {
    pub remaining: usize,
    pub bounces: usize,
}

/// One more bounce: black stays black, and the sky is halved once more.
pub open spec fn halve(s: Shade) -> Shade {
    match s {
        Shade::Black => Shade::Black,
        Shade::Sky { halvings } => Shade::Sky { halvings: (halvings + 1) as usize },
    }
}

/// `s` halved `n` times.
pub open spec fn halve_times(s: Shade, n: nat) -> Shade
    decreases n,
{
    if n == 0 {
        s
    } else {
        halve_times(halve(s), (n - 1) as nat)
    }
}

/// The shade of a path by the recursive rule: with no depth left it is black;
/// a ray that misses the scene sees the sky; a ray that hits is worth half of
/// its bounce ray, traced with one level less. `hits[i]` tells whether the
/// i-th ray of the path struck the scene.
pub open spec fn shade(depth: nat, hits: Seq<bool>) -> Shade
    decreases depth,
{
    if depth == 0 {
        Shade::Black
    } else if !hits[0] {
        Shade::Sky { halvings: 0 }
    } else {
        halve(shade((depth - 1) as nat, hits.drop_first()))
    }
}

impl Path {
    pub open spec fn wf(self) -> bool {
        self.remaining + self.bounces <= usize::MAX
    }

    /// The state after the current ray's scene query reports `hit`.
    pub open spec fn after(self, hit: bool) -> Path {
        if hit {
            Path { remaining: (self.remaining - 1) as usize, bounces: (self.bounces + 1) as usize }
        } else {
            self
        }
    }

    /// The step taken when the current ray's scene query reports `hit`.
    pub open spec fn decide(self, hit: bool) -> Step {
        if hit {
            Step::Bounce
        } else {
            Step::Done(Shade::Sky { halvings: self.bounces })
        }
    }

    /// A fresh path that may take up to `depth` scene queries.
    pub fn new(depth: usize) -> (r: Path)
        ensures
            r.remaining == depth,
            r.bounces == 0,
            r.wf(),
    {
        Path { remaining: depth, bounces: 0 }
    }

    /// Whether the budget is exhausted; the path is then absorbed and
    /// contributes black, with no further scene query.
    pub fn spent(&self) -> (r: bool)
        ensures
            r == (self.remaining == 0),
    {
        self.remaining == 0
    }

    /// Takes the outcome of the current ray's scene query and decides the next
    /// step: on a hit the path bounces, spending one unit of budget; on a miss
    /// it ends in the sky, halved once per bounce taken.
    pub fn step(&mut self, hit: bool) -> (r: Step)
        requires
            old(self).wf(),
            old(self).remaining > 0,
        ensures
            r == old(self).decide(hit),
            *final(self) == old(self).after(hit),
            final(self).wf(),
            hit ==> r == Step::Bounce,
            hit ==> final(self).remaining == old(self).remaining - 1,
            hit ==> final(self).bounces == old(self).bounces + 1,
            !hit ==> r == Step::Done(Shade::Sky { halvings: old(self).bounces }),
            !hit ==> *final(self) == *old(self),
    {
        if hit {
            self.remaining = self.remaining - 1;
            self.bounces = self.bounces + 1;
            Step::Bounce
        } else {
            Step::Done(Shade::Sky { halvings: self.bounces })
        }
    }
}

/// The shade that the path machine reaches from `p` when the successive scene
/// queries report `hits`.
pub open spec fn settle(p: Path, hits: Seq<bool>) -> Shade
    decreases p.remaining,
{
    if p.remaining == 0 {
        Shade::Black
    } else {
        match p.decide(hits[0]) {
            Step::Done(s) => s,
            Step::Bounce => settle(p.after(true), hits.drop_first()),
        }
    }
}

proof fn lemma_halve_sky(h: usize, n: nat)
    requires
        h + n <= usize::MAX,
    ensures
        halve_times(Shade::Sky { halvings: h }, n) == (Shade::Sky { halvings: (h + n) as usize }),
    decreases n,
{
    if n > 0 {
        lemma_halve_sky((h + 1) as usize, (n - 1) as nat);
    }
}

proof fn lemma_halve_black(n: nat)
    ensures
        halve_times(Shade::Black, n) == Shade::Black,
    decreases n,
{
    if n > 0 {
        lemma_halve_black((n - 1) as nat);
    }
}

/// The machine, part way along a path, ends in the recursive shade of what is
/// left, halved once per bounce already taken.
proof fn lemma_settle_from(p: Path, hits: Seq<bool>)
    requires
        p.wf(),
        hits.len() >= p.remaining,
    ensures
        settle(p, hits) == halve_times(shade(p.remaining as nat, hits), p.bounces as nat),
    decreases p.remaining,
{
    if p.remaining == 0 {
        lemma_halve_black(p.bounces as nat);
    } else if !hits[0] {
        lemma_halve_sky(0, p.bounces as nat);
    } else {
        let q = p.after(true);
        lemma_settle_from(q, hits.drop_first());
        assert(halve_times(shade(p.remaining as nat, hits), p.bounces as nat) == halve_times(
            shade(q.remaining as nat, hits.drop_first()),
            q.bounces as nat,
        )) by {
            lemma_halve_times_succ(shade(q.remaining as nat, hits.drop_first()), p.bounces as nat);
        }
    }
}

proof fn lemma_halve_times_succ(s: Shade, n: nat)
    ensures
        halve_times(halve(s), n) == halve_times(s, n + 1),
{
}

/// Driving the path machine step by step gives exactly the shade of the
/// recursive rule, for every budget and every sequence of scene outcomes.
pub proof fn lemma_path_matches_recursion(depth: usize, hits: Seq<bool>)
    requires
        hits.len() >= depth,
    ensures
        settle(Path { remaining: depth, bounces: 0 }, hits) == shade(depth as nat, hits),
{
    lemma_settle_from(Path { remaining: depth, bounces: 0 }, hits);
}

/// A path with no budget is black, whatever the scene holds.
pub proof fn lemma_no_depth_is_black(hits: Seq<bool>)
    ensures
        shade(0, hits) == Shade::Black,
        settle(Path { remaining: 0, bounces: 0 }, hits) == Shade::Black,
{
}

} // verus!
