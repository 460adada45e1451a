//! How big one window draws its document: a place on a fixed ladder of percentages.
//!
//! The keyboard, the two buttons in the primary menu, `Ctrl` with the scroll wheel and
//! a pinch all move along the same [`LADDER`] through [`Zoom::step`], so there is one
//! definition of a step and one place the bound is kept: at either end of the ladder
//! the step that would leave it is simply not taken, and not offered.
use vstd::prelude::*;
use crate::decimal::{decimal, decimal_of};
use crate::text::{extend_chars, string_of};

verus! {

/// The steps a document is scaled in, as percentages, from the smallest the reader may
/// ask for to the largest.
pub const LADDER: [u32; 10] = [50, 67, 80, 90, 100, 110, 125, 150, 175, 200];

/// Where on the ladder a window starts.
pub const HUNDRED_PERCENT: usize = 4;

/// The zoom actions, by the full names widgets and shortcuts use.
pub const IN: &'static str = "win.zoom-in";
pub const OUT: &'static str = "win.zoom-out";
pub const RESET: &'static str = "win.zoom-reset";

/// The ladder as the rules speak of it.
pub open spec fn ladder() -> Seq<u32> {
    seq![50u32, 67u32, 80u32, 90u32, 100u32, 110u32, 125u32, 150u32, 175u32, 200u32]
}

/// Which way along the ladder.
#[derive(Clone, Copy, Debug, PartialEq, Eq)]
pub enum Step {
    In,
    Out,
}

/// Where one step `towards` leaves a document standing on rung `at`: the next rung,
/// or the same one at the end of the ladder.
pub open spec fn stepped(at: nat, towards: Step) -> nat {
    match towards {
        Step::In => if at + 1 < 10 {
            (at + 1) as nat
        } else {
            at
        },
        Step::Out => if at > 0 {
            (at - 1) as nat
        } else {
            at
        },
    }
}

/// One window's zoom.
pub struct Zoom {
    at: usize,
}

proof fn lemma_ladder_is_the_constant()
    ensures
        LADDER@ == ladder(),
{
    assert(LADDER@ =~= ladder());
}

impl Zoom {
    #[verifier::type_invariant]
    spec fn on_the_ladder(&self) -> bool {
        self.at < 10
    }

    /// The rung the document stands on.
    pub closed spec fn rung(&self) -> nat {
        self.at as nat
    }

    /// A window's zoom as it opens: at 100%.
    pub fn new() -> (z: Zoom)
        ensures
            z.rung() == HUNDRED_PERCENT,
    {
        Zoom { at: HUNDRED_PERCENT }
    }

    /// The rung the document stands on.
    pub fn at(&self) -> (at: usize)
        ensures
            at == self.rung(),
            at < 10,
    {
        proof {
            use_type_invariant(self);
        }
        self.at
    }

    /// Puts the document on rung `at`.
    pub fn settle(&mut self, at: usize)
        requires
            at < 10,
        ensures
            final(self).rung() == at,
    {
        self.at = at;
    }

    /// Puts the document back at 100%, as `Ctrl+0` and the button showing the level do.
    pub fn reset(&mut self)
        ensures
            final(self).rung() == HUNDRED_PERCENT,
    {
        self.at = HUNDRED_PERCENT;
    }

    /// One step along the ladder, or nothing at all at the end of it. Answers whether
    /// the document moved.
    pub fn step(&mut self, towards: Step) -> (moved: bool)
        ensures
            final(self).rung() == stepped(old(self).rung(), towards),
            moved == (final(self).rung() != old(self).rung()),
    {
        proof {
            use_type_invariant(&*self);
        }
        match towards {
            Step::In => if self.at + 1 < 10 {
                self.at = self.at + 1;
                true
            } else {
                false
            },
            Step::Out => if self.at > 0 {
                self.at = self.at - 1;
                true
            } else {
                false
            },
        }
    }

    /// A turn of the scroll wheel over the document: `towards` is which way it turned
    /// (up the page is up the ladder), or `None` for a turn of no distance, and
    /// `control` whether `Ctrl` was held. Answers whether the turn was taken as zoom —
    /// and so whether the page must not also scroll by it.
    pub fn scrolled(&mut self, towards: Option<Step>, control: bool) -> (zoomed: bool)
        ensures
            zoomed == (control && towards is Some),
            zoomed ==> final(self).rung() == stepped(old(self).rung(), towards.unwrap()),
            !zoomed ==> final(self).rung() == old(self).rung(),
    {
        if !control {
            return false;
        }
        match towards {
            Some(t) => {
                self.step(t);
                true
            },
            None => false,
        }
    }

    /// How big the document is drawn, as a percentage.
    pub fn percent(&self) -> (p: u32)
        ensures
            p == ladder()[self.rung() as int],
    {
        proof {
            use_type_invariant(self);
            lemma_ladder_is_the_constant();
        }
        LADDER[self.at]
    }

    /// What the level button says: the percentage and a `%`.
    pub fn label(&self) -> (said: String)
        ensures
            said@ == decimal_of(ladder()[self.rung() as int] as nat) + seq!['%'],
    {
        let mut words = decimal(self.percent() as u64);
        extend_chars(&mut words, &['%']);
        string_of(&words)
    }

    /// Whether there is a smaller rung to step down to.
    pub fn can_zoom_out(&self) -> (yes: bool)
        ensures
            yes == (self.rung() > 0),
    {
        self.at > 0
    }

    /// Whether there is a larger rung to step up to.
    pub fn can_zoom_in(&self) -> (yes: bool)
        ensures
            yes == (self.rung() + 1 < 10),
    {
        proof {
            use_type_invariant(self);
        }
        self.at + 1 < 10
    }
}

/// The ladder runs from half size to double through 100%, and only ever goes up.
pub proof fn law_the_ladder_climbs_from_half_to_double()
    ensures
        ladder().len() == 10,
        ladder()[0] == 50,
        ladder()[9] == 200,
        ladder()[HUNDRED_PERCENT as int] == 100,
        forall|i: int, j: int| 0 <= i < j < 10 ==> ladder()[i] < ladder()[j],
{
}

/// A step and the step back land where the reader started, wherever that was on the
/// ladder but its end.
pub proof fn law_a_step_is_undone_by_the_step_back(at: nat)
    ensures
        at + 1 < 10 ==> stepped(stepped(at, Step::In), Step::Out) == at,
        0 < at < 10 ==> stepped(stepped(at, Step::Out), Step::In) == at,
{
}

/// A step moves exactly one rung: in to the next larger percentage and out to the next
/// smaller, skipping none, and at the end of the ladder it does not move at all.
pub proof fn law_a_step_moves_one_rung(at: nat)
    requires
        at < 10,
    ensures
        at + 1 < 10 ==> stepped(at, Step::In) == at + 1,
        at + 1 < 10 ==> ladder()[stepped(at, Step::In) as int] > ladder()[at as int],
        at + 1 < 10 ==> forall|i: int| 0 <= i < 10 && ladder()[at as int] < #[trigger] ladder()[i] ==> ladder()[
            stepped(at, Step::In) as int] <= ladder()[i],
        at == 9 ==> stepped(at, Step::In) == at,
        0 < at ==> stepped(at, Step::Out) == at - 1,
        0 < at ==> ladder()[stepped(at, Step::Out) as int] < ladder()[at as int],
        0 < at ==> forall|i: int| 0 <= i < 10 && #[trigger] ladder()[i] < ladder()[at as int] ==> ladder()[i]
            <= ladder()[stepped(at, Step::Out) as int],
        at == 0 ==> stepped(at, Step::Out) == at,
{
    law_the_ladder_climbs_from_half_to_double();
}

/// The rungs of the ladder, in percent, from the smallest to the largest.
pub proof fn law_the_rungs_of_the_ladder()
    ensures
        ladder() == seq![50u32, 67u32, 80u32, 90u32, 100u32, 110u32, 125u32, 150u32, 175u32, 200u32],
        LADDER@ == ladder(),
{
    lemma_ladder_is_the_constant();
}

/// Every step keeps the document on the ladder, so the percentage it is drawn at is
/// always between half size and double.
pub proof fn law_no_step_leaves_the_ladder(at: nat, towards: Step)
    requires
        at < 10,
    ensures
        stepped(at, towards) < 10,
        50 <= ladder()[stepped(at, towards) as int] <= 200,
{
    law_the_ladder_climbs_from_half_to_double();
}

} // verus!
