use vstd::prelude::*;
use rand::Rng;

verus! {

/// Calls `Rng::gen_range(low..high)` on `rng`. The claim, from rand's
/// documentation: the value lies in the half-open range `[low, high)`. The
/// call panics on an empty range, which `requires` rules out. Which value in
/// the range comes back depends on the generator's state and is not stated.
/// Beside the value comes a ghost record, with no run-time content, of the
/// range that was asked for.
#[verifier::external_body]
fn gen_range(rng: &mut rand::rngs::ThreadRng, low: u16, high: u16) -> (drawn: (u16, Ghost<(u16, u16)>))
    requires
        low < high,
    ensures
        low <= drawn.0 < high,
        drawn.1@ == (low, high),
{
    (rng.gen_range(low..high), Ghost((low, high)))
}

/// A log of the numbers drawn from the random generator: for each draw, in
/// order, the range asked for (low, then high bound) and the number drawn.
/// The log is ghost; a value of it can only be had empty, from `new`, and
/// grows only by the draws that `draw` makes, so code outside this module
/// cannot write entries of its own into it.
pub struct Draws {
    entries: Ghost<Seq<(u16, u16, u16)>>,
}

impl View for Draws {
    type V = Seq<(u16, u16, u16)>;

    /// The draws made, in order, as (low, high, drawn).
    closed spec fn view(&self) -> Seq<(u16, u16, u16)> {
        self.entries@
    }
}

impl Draws {
    /// An empty log.
    pub fn new() -> (d: Draws)
        ensures
            d@ == Seq::<(u16, u16, u16)>::empty(),
    {
        Draws { entries: Ghost(Seq::empty()) }
    }

    /// Draws a number in `[low, high)` from `rng` and logs the draw.
    pub fn draw(&mut self, rng: &mut rand::rngs::ThreadRng, low: u16, high: u16) -> (r: u16)
        requires
            low < high,
        ensures
            low <= r < high,
            final(self)@ == old(self)@.push((low, high, r)),
    {
        let (r, Ghost(range)) = gen_range(rng, low, high);
        self.entries = Ghost(self.entries@.push((range.0, range.1, r)));
        r
    }

    /// Appends the draws of `other` to this log.
    pub fn append(&mut self, other: Draws)
        ensures
            final(self)@ == old(self)@ + other@,
    {
        self.entries = Ghost(self.entries@ + other.entries@);
    }
}

} // verus!
