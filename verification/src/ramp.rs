use vstd::prelude::*;

verus! {

/// A display colour: red, green and blue, each from 0 to 255.
#[derive(Clone, Copy, Debug, PartialEq, Eq, Structural)]
pub struct Rgb {
    pub r: u8,
    pub g: u8,
    pub b: u8,
}

/// What `colorous::TURBO.eval_rational(rank, of)` returns, as red, green and blue.
pub uninterp spec fn turbo_sample(rank: usize, of: usize) -> (u8, u8, u8);

/// Calls `colorous::TURBO.eval_rational` and reads the colour's three fields.
///
/// Claimed of it: the colour depends on the two numbers alone. The call
/// panics where `of` is zero, which the precondition leaves out.
#[verifier::external_body]
pub(crate) fn turbo_at(rank: usize, of: usize) -> (sample: (u8, u8, u8))
    requires
        of > 0,
    ensures
        sample == turbo_sample(rank, of),
{
    let color = colorous::TURBO.eval_rational(rank, of);
    (color.r, color.g, color.b)
}

impl Rgb {
    /// The colour of a slot that is handed out alone.
    pub open spec fn white() -> Rgb {
        Rgb { r: 255, g: 255, b: 255 }
    }

    /// The colour of a slot in a batch: where the batch may hold one slot only,
    /// white; else the sample of the ramp that was taken for the slot.
    pub open spec fn spec_in_batch(limit: usize, sample: (u8, u8, u8)) -> Rgb {
        if limit == 1 {
            Rgb::white()
        } else {
            Rgb { r: sample.0, g: sample.1, b: sample.2 }
        }
    }

    /// The colour of the slot of rank `rank` in a batch of at most `limit`
    /// slots: evenly spaced along the turbo ramp, but white for a batch of one.
    pub open spec fn of_slot(rank: usize, limit: usize) -> Rgb {
        Rgb::spec_in_batch(limit, turbo_sample(rank, limit))
    }

    #[verifier::when_used_as_spec(spec_in_batch)]
    pub fn in_batch(limit: usize, sample: (u8, u8, u8)) -> (color: Rgb)
        ensures
            color == Rgb::spec_in_batch(limit, sample),
    {
        if limit == 1 {
            Rgb { r: 255, g: 255, b: 255 }
        } else {
            Rgb { r: sample.0, g: sample.1, b: sample.2 }
        }
    }

    /// The colour for one slot of a batch, sampled from the ramp.
    pub fn for_slot(rank: usize, limit: usize) -> (color: Rgb)
        requires
            limit > 0,
        ensures
            color == Rgb::of_slot(rank, limit),
    {
        Rgb::in_batch(limit, turbo_at(rank, limit))
    }
}

} // verus!
