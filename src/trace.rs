//! Control of the recursive color evaluation of one camera ray.
//!
//! Evaluating a ray at depth `d` returns black when `d` is zero; otherwise it
//! asks the scene for the closest hit: on a miss the path ends in the sky
//! gradient, on a hit whose material absorbs the ray it ends black, and on a
//! hit that scatters the evaluation goes on with the scattered ray at depth
//! `d - 1`. `PathState` runs this recursion as a loop: it is told what each
//! query found and says when, and how, the path ends.

use vstd::prelude::*;

verus! {

/// What one scene query and material scatter reported for a ray.
#[derive(Clone, Copy, Debug, PartialEq, Eq, Structural)]
pub enum Surface {
    /// The ray hit nothing.
    Miss,
    /// The ray hit a surface whose material absorbed it.
    Absorbed,
    /// The ray hit a surface whose material scattered it.
    Scattered,
}

/// How a path ends.
#[derive(Clone, Copy, Debug, PartialEq, Eq, Structural)]
pub enum Termination {
    /// No light: the bounce limit was reached or the ray was absorbed.
    Black,
    /// The background gradient, seen along the last ray.
    Sky,
}

/// The end of the evaluation at depth `depth` when the successive queries
/// report `events`, with the number of queries it made; `None` when the
/// evaluation still needs more queries than `events` holds.
pub open spec fn path_end(depth: nat, events: Seq<Surface>) -> Option<(Termination, nat)>
    decreases depth,
{
    if depth == 0 {
        Some((Termination::Black, 0))
    } else if events.len() == 0 {
        None
    } else {
        match events[0] {
            Surface::Miss => Some((Termination::Sky, 1)),
            Surface::Absorbed => Some((Termination::Black, 1)),
            Surface::Scattered => match path_end((depth - 1) as nat, events.drop_first()) {
                Some((t, n)) => Some((t, n + 1)),
                None => None,
            },
        }
    }
}

/// The state of the evaluation of one camera ray.
pub struct PathState {
    remaining: usize,
    outcome: Option<Termination>,
    max_depth: Ghost<nat>,
    seen: Ghost<Seq<Surface>>,
}

impl PathState {
    /// The depth limit the evaluation started with.
    pub closed spec fn max_depth(&self) -> nat {
        self.max_depth@
    }

    /// What the queries made so far reported, in order.
    pub closed spec fn seen(&self) -> Seq<Surface> {
        self.seen@
    }

    /// The depth at which the next query is made.
    pub closed spec fn spec_remaining(&self) -> nat {
        self.remaining as nat
    }

    /// How the path ended, or `None` while it goes on.
    pub closed spec fn outcome(&self) -> Option<Termination> {
        self.outcome
    }

    pub closed spec fn wf(&self) -> bool {
        &&& self.seen@.len() <= self.max_depth@
        &&& match path_end(self.max_depth@, self.seen@) {
            None => {
                &&& self.outcome is None
                &&& self.remaining > 0
                &&& self.remaining + self.seen@.len() == self.max_depth@
            },
            Some((t, n)) => self.outcome == Some(t) && n == self.seen@.len(),
        }
    }

    /// A path about to be evaluated with the given bounce limit; with a limit
    /// of zero it has already ended, black.
    pub fn new(max_depth: usize) -> (s: PathState)
        ensures
            s.wf(),
            s.max_depth() == max_depth,
            s.seen() == Seq::<Surface>::empty(),
            s.spec_remaining() == max_depth,
            s.outcome() == (if max_depth == 0 {
                Some(Termination::Black)
            } else {
                None::<Termination>
            }),
    {
        let outcome = if max_depth == 0 {
            Some(Termination::Black)
        } else {
            None
        };
        PathState {
            remaining: max_depth,
            outcome,
            max_depth: Ghost(max_depth as nat),
            seen: Ghost(Seq::empty()),
        }
    }

    /// How the path ended, or `None` while another query is needed.
    pub fn finished(&self) -> (r: Option<Termination>)
        requires
            self.wf(),
        ensures
            r == self.outcome(),
            r == (match path_end(self.max_depth(), self.seen()) {
                Some((t, n)) => Some(t),
                None => None::<Termination>,
            }),
    {
        self.outcome
    }

    /// The depth at which the next query is made.
    pub fn remaining(&self) -> (d: usize)
        ensures
            d == self.spec_remaining(),
    {
        self.remaining
    }

    /// Takes in what the next query reported.
    pub fn record(&mut self, s: Surface)
        requires
            old(self).wf(),
            old(self).outcome() is None,
        ensures
            final(self).wf(),
            final(self).max_depth() == old(self).max_depth(),
            final(self).seen() == old(self).seen().push(s),
            final(self).outcome() == (match s {
                Surface::Miss => Some(Termination::Sky),
                Surface::Absorbed => Some(Termination::Black),
                Surface::Scattered => if old(self).spec_remaining() == 1 {
                    Some(Termination::Black)
                } else {
                    None::<Termination>
                },
            }),
            final(self).spec_remaining() == (if s == Surface::Scattered {
                old(self).spec_remaining() - 1
            } else {
                old(self).spec_remaining() as int
            }),
    {
        proof {
            lemma_path_end_extend(self.max_depth@, self.seen@, s);
        }
        match s {
            Surface::Miss => {
                self.outcome = Some(Termination::Sky);
            },
            Surface::Absorbed => {
                self.outcome = Some(Termination::Black);
            },
            Surface::Scattered => {
                self.remaining = self.remaining - 1;
                if self.remaining == 0 {
                    self.outcome = Some(Termination::Black);
                }
            },
        }
        self.seen = Ghost(self.seen@.push(s));
    }
}

/// While the path goes on, every query so far reported a scatter, and one
/// more report decides the next step as the recursion does at the depth left.
proof fn lemma_path_end_extend(depth: nat, events: Seq<Surface>, s: Surface)
    requires
        path_end(depth, events) is None,
    ensures
        events.len() < depth,
        forall|i: int| 0 <= i < events.len() ==> events[i] == Surface::Scattered,
        path_end(depth, events.push(s)) == (match s {
            Surface::Miss => Some((Termination::Sky, events.len() + 1)),
            Surface::Absorbed => Some((Termination::Black, events.len() + 1)),
            Surface::Scattered => if depth == events.len() + 1 {
                Some((Termination::Black, events.len() + 1))
            } else {
                None
            },
        }),
    decreases depth,
{
    if events.len() == 0 {
        assert(events.push(s).drop_first() =~= Seq::<Surface>::empty());
        assert(events.push(s)[0] == s);
        if depth > 1 {
            assert(path_end((depth - 1) as nat, Seq::<Surface>::empty()) is None);
        }
    } else {
        assert(events.push(s)[0] == events[0]);
        assert(events[0] == Surface::Scattered);
        lemma_path_end_extend((depth - 1) as nat, events.drop_first(), s);
        assert(events.push(s).drop_first() =~= events.drop_first().push(s));
        assert forall|i: int| 0 <= i < events.len() implies events[i] == Surface::Scattered by {
            if i > 0 {
                assert(events[i] == events.drop_first()[i - 1]);
            }
        }
    }
}

/// With a bounce limit of zero a path is black and makes no query.
pub proof fn lemma_zero_depth_is_black(events: Seq<Surface>)
    ensures
        path_end(0, events) == Some((Termination::Black, 0nat)),
{
}

/// A path makes at most as many queries as its bounce limit, and it ends once
/// that many reports are at hand.
pub proof fn lemma_depth_bounds_queries(depth: nat, events: Seq<Surface>)
    ensures
        events.len() >= depth ==> path_end(depth, events) is Some,
        match path_end(depth, events) {
            Some((t, n)) => n <= depth && n <= events.len(),
            None => true,
        },
    decreases depth,
{
    if depth > 0 && events.len() > 0 {
        lemma_depth_bounds_queries((depth - 1) as nat, events.drop_first());
    }
}

} // verus!
