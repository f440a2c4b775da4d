//! The course of one light path.
//!
//! A path is traced bounce by bounce. At each bounce the scene reports one
//! of three things: the ray missed everything, the surface absorbed it, or
//! the surface scattered it. The path ends when the ray escapes, when it is
//! absorbed, or when it has been scattered `MAX_DEPTH` times. Only an
//! escaped path carries light: the background, attenuated once per
//! scattering.

use vstd::prelude::*;

verus! {

/// The number of scatterings after which a path is cut off.
pub const MAX_DEPTH: u32 = 128;

/// What the scene reports for the current ray of a path.
#[derive(Clone, Copy, Debug, PartialEq, Eq, Structural)]
pub enum Bounce {
    /// The ray meets no surface.
    Miss,
    /// The ray meets a surface that does not scatter it.
    Absorbed,
    /// The ray meets a surface that scatters it.
    Scattered,
}

/// The state of a path.
#[derive(Clone, Copy, Debug, PartialEq, Eq, Structural)]
pub enum Path {
    /// The path goes on; the ray has been scattered this many times.
    Tracing(u32),
    /// The ray left the scene after this many scatterings: the path carries
    /// the background, attenuated by each of them.
    Escaped(u32),
    /// A surface absorbed the ray: the path is black.
    Absorbed,
    /// The ray was scattered `MAX_DEPTH` times: the path is black.
    Exhausted,
}

/// The number of leading `Scattered` reports in `bounces`.
pub open spec fn scatterings(bounces: Seq<Bounce>) -> nat
    decreases bounces.len(),
{
    if bounces.len() == 0 || bounces[0] != Bounce::Scattered {
        0
    } else {
        1 + scatterings(bounces.drop_first())
    }
}

impl Path {
    /// The state of a path before its first bounce.
    pub open spec fn spec_start() -> Path {
        Path::Tracing(0)
    }

    /// The path has ended.
    pub open spec fn is_final(self) -> bool {
        !(self is Tracing)
    }

    /// The path carries no light.
    pub open spec fn is_black(self) -> bool {
        self is Absorbed || self is Exhausted
    }

    /// A path that goes on has been scattered fewer than `MAX_DEPTH` times;
    /// so has one that escaped.
    pub open spec fn valid(self) -> bool {
        match self {
            Path::Tracing(depth) => depth < MAX_DEPTH,
            Path::Escaped(depth) => depth < MAX_DEPTH,
            _ => true,
        }
    }

    /// The state after one report. A path that has ended stays as it is.
    pub open spec fn spec_step(self, bounce: Bounce) -> Path {
        match self {
            Path::Tracing(depth) => match bounce {
                Bounce::Miss => Path::Escaped(depth),
                Bounce::Absorbed => Path::Absorbed,
                Bounce::Scattered => if depth + 1 >= MAX_DEPTH {
                    Path::Exhausted
                } else {
                    Path::Tracing((depth + 1) as u32)
                },
            },
            _ => self,
        }
    }

    /// The state after a sequence of reports, first report first.
    pub open spec fn spec_follow(self, bounces: Seq<Bounce>) -> Path
        decreases bounces.len(),
    {
        if bounces.len() == 0 {
            self
        } else {
            self.spec_follow(bounces.drop_last()).spec_step(bounces.last())
        }
    }

    /// The state that a fresh path reaches on `bounces`, said directly: what
    /// counts is how many scatterings come first and what follows them.
    pub open spec fn outcome(bounces: Seq<Bounce>) -> Path {
        let n = scatterings(bounces);
        if n >= MAX_DEPTH {
            Path::Exhausted
        } else if n == bounces.len() {
            Path::Tracing(n as u32)
        } else if bounces[n as int] == Bounce::Miss {
            Path::Escaped(n as u32)
        } else {
            Path::Absorbed
        }
    }

    /// A path before its first bounce.
    pub fn start() -> (p: Path)
        ensures
            p == Path::spec_start(),
            p.valid(),
    {
        Path::Tracing(0)
    }

    /// Whether the path goes on, so that the scene must be asked again.
    pub fn is_tracing(&self) -> (b: bool)
        ensures
            b == !self.is_final(),
    {
        match self {
            Path::Tracing(_) => true,
            _ => false,
        }
    }

    /// The number of attenuations that the background is seen through, for a
    /// path that escaped; `None` for a path that goes on or is black.
    pub fn attenuations(&self) -> (n: Option<u32>)
        ensures
            n == (match *self {
                Path::Escaped(depth) => Some(depth),
                _ => None,
            }),
    {
        match self {
            Path::Escaped(depth) => Some(*depth),
            _ => None,
        }
    }

    /// The state after the scene's report for the current ray.
    pub fn step(self, bounce: Bounce) -> (p: Path)
        ensures
            p == self.spec_step(bounce),
            self.valid() ==> p.valid(),
    {
        match self {
            Path::Tracing(depth) => match bounce {
                Bounce::Miss => Path::Escaped(depth),
                Bounce::Absorbed => Path::Absorbed,
                Bounce::Scattered => if depth >= MAX_DEPTH - 1 {
                    Path::Exhausted
                } else {
                    Path::Tracing(depth + 1)
                },
            },
            _ => self,
        }
    }

    /// The state that a fresh path reaches on a sequence of reports.
    pub fn follow(bounces: &Vec<Bounce>) -> (p: Path)
        ensures
            p == Path::spec_start().spec_follow(bounces@),
            p == Path::outcome(bounces@),
            p.valid(),
    {
        let mut p = Path::start();
        let mut i: usize = 0;
        while i < bounces.len()
            invariant
                i <= bounces.len(),
                p.valid(),
                p == Path::spec_start().spec_follow(bounces@.take(i as int)),
            decreases bounces.len() - i,
        {
            assert(bounces@.take(i + 1).drop_last() =~= bounces@.take(i as int));
            p = p.step(bounces[i]);
            i = i + 1;
        }
        proof {
            assert(bounces@.take(bounces@.len() as int) =~= bounces@);
            lemma_follow_is_outcome(bounces@);
        }
        p
    }
}

/// The leading scatterings of a sequence are no more than its length, all of
/// them are `Scattered`, and what follows them, if anything, is not.
pub proof fn lemma_scatterings(bounces: Seq<Bounce>)
    ensures
        scatterings(bounces) <= bounces.len(),
        forall|i: int| 0 <= i < scatterings(bounces) ==> bounces[i] == Bounce::Scattered,
        scatterings(bounces) < bounces.len() ==> bounces[scatterings(bounces) as int]
            != Bounce::Scattered,
    decreases bounces.len(),
{
    if bounces.len() > 0 && bounces[0] == Bounce::Scattered {
        let rest = bounces.drop_first();
        lemma_scatterings(rest);
        assert forall|i: int| 0 <= i < scatterings(bounces) implies bounces[i]
            == Bounce::Scattered by {
            if i > 0 {
                assert(rest[i - 1] == bounces[i]);
            }
        }
        if scatterings(bounces) < bounces.len() {
            assert(rest[scatterings(rest) as int] == bounces[scatterings(bounces) as int]);
        }
    }
}

/// One more report changes the count of leading scatterings only where all
/// reports before it were scatterings and it is one too.
pub proof fn lemma_scatterings_push(bounces: Seq<Bounce>, bounce: Bounce)
    ensures
        scatterings(bounces.push(bounce)) == (if scatterings(bounces) == bounces.len() && bounce
            == Bounce::Scattered {
            bounces.len() + 1
        } else {
            scatterings(bounces)
        }),
    decreases bounces.len(),
{
    let more = bounces.push(bounce);
    if bounces.len() == 0 {
        assert(more.drop_first() =~= Seq::<Bounce>::empty());
        if bounce == Bounce::Scattered {
            assert(scatterings(more.drop_first()) == 0);
        }
    } else {
        assert(more[0] == bounces[0]);
        if bounces[0] == Bounce::Scattered {
            assert(more.drop_first() =~= bounces.drop_first().push(bounce));
            lemma_scatterings_push(bounces.drop_first(), bounce);
        }
    }
}

/// Following the reports one by one leads to the state that `outcome` names.
/// So a path goes on only while every report was a scattering and fewer than
/// `MAX_DEPTH` of them came; it ends at the first miss or absorption, or at
/// the `MAX_DEPTH`-th scattering, and nothing after that changes it.
pub proof fn lemma_follow_is_outcome(bounces: Seq<Bounce>)
    ensures
        Path::spec_start().spec_follow(bounces) == Path::outcome(bounces),
        Path::outcome(bounces).valid(),
    decreases bounces.len(),
{
    lemma_scatterings(bounces);
    if bounces.len() > 0 {
        let before = bounces.drop_last();
        lemma_follow_is_outcome(before);
        lemma_scatterings(before);
        assert(before.push(bounces.last()) =~= bounces);
        lemma_scatterings_push(before, bounces.last());
        if scatterings(before) < before.len() {
            assert(before[scatterings(before) as int] == bounces[scatterings(before) as int]);
        }
    }
}

/// No path asks the scene more than `MAX_DEPTH` times: after that many
/// reports every path has ended.
pub proof fn lemma_path_ends(bounces: Seq<Bounce>)
    requires
        bounces.len() >= MAX_DEPTH,
    ensures
        Path::spec_start().spec_follow(bounces).is_final(),
{
    lemma_follow_is_outcome(bounces);
    lemma_scatterings(bounces);
}

/// A path carries light only if the ray escaped: a path that was absorbed or
/// cut off is black whatever came before.
pub proof fn lemma_light_only_escapes(bounces: Seq<Bounce>)
    ensures
        Path::spec_start().spec_follow(bounces).is_final() ==> (Path::spec_start().spec_follow(
            bounces,
        ).is_black() <==> !(scatterings(bounces) < bounces.len() && scatterings(bounces)
            < MAX_DEPTH && bounces[scatterings(bounces) as int] == Bounce::Miss)),
{
    lemma_follow_is_outcome(bounces);
    lemma_scatterings(bounces);
}

} // verus!
