//! Stage logic of the linear ADSR envelope. The levels themselves are
//! computed by the caller, which reports when a segment reached its target.
use vstd::prelude::*;

verus! {

/// Stage of an ADSR envelope.
#[derive(Debug, Clone, Copy, PartialEq, Eq, Structural)]
pub enum AdsrStage {
    Idle,
    Attack,
    Decay,
    Sustain,
    Release,
}

/// Position of a stage in the order an envelope runs through them.
pub open spec fn stage_rank(s: AdsrStage) -> int {
    match s {
        AdsrStage::Attack => 0,
        AdsrStage::Decay => 1,
        AdsrStage::Sustain => 2,
        AdsrStage::Release => 3,
        AdsrStage::Idle => 4,
    }
}

/// The stage after one sample, given whether the current segment reached
/// its target level in that sample (attack: full level; decay: sustain
/// level; release: zero).
pub open spec fn spec_advance(s: AdsrStage, reached: bool) -> AdsrStage {
    match s {
        AdsrStage::Attack => if reached { AdsrStage::Decay } else { AdsrStage::Attack },
        AdsrStage::Decay => if reached { AdsrStage::Sustain } else { AdsrStage::Decay },
        AdsrStage::Release => if reached { AdsrStage::Idle } else { AdsrStage::Release },
        other => other,
    }
}

impl AdsrStage {
    /// A note starts: the envelope (re)enters its attack.
    pub fn note_on(&mut self)
        ensures
            *final(self) == AdsrStage::Attack,
    {
        *self = AdsrStage::Attack;
    }

    /// A note ends: a sounding envelope enters its release; an idle one
    /// stays idle.
    pub fn note_off(&mut self)
        ensures
            *final(self) == (if *old(self) == AdsrStage::Idle {
                AdsrStage::Idle
            } else {
                AdsrStage::Release
            }),
    {
        match *self {
            AdsrStage::Idle => {},
            _ => {
                *self = AdsrStage::Release;
            },
        }
    }

    pub fn is_active(&self) -> (b: bool)
        ensures
            b == (*self != AdsrStage::Idle),
    {
        match *self {
            AdsrStage::Idle => false,
            _ => true,
        }
    }

    /// Moves on after one sample; `reached` tells whether the current
    /// segment hit its target level.
    pub fn advance(&mut self, reached: bool)
        ensures
            *final(self) == spec_advance(*old(self), reached),
            !reached ==> *final(self) == *old(self),
            reached && *old(self) == AdsrStage::Attack ==> *final(self) == AdsrStage::Decay,
            reached && *old(self) == AdsrStage::Decay ==> *final(self) == AdsrStage::Sustain,
            reached && *old(self) == AdsrStage::Release ==> *final(self) == AdsrStage::Idle,
            *old(self) == AdsrStage::Sustain ==> *final(self) == AdsrStage::Sustain,
            *old(self) == AdsrStage::Idle ==> *final(self) == AdsrStage::Idle,
    {
        if reached {
            match *self {
                AdsrStage::Attack => {
                    *self = AdsrStage::Decay;
                },
                AdsrStage::Decay => {
                    *self = AdsrStage::Sustain;
                },
                AdsrStage::Release => {
                    *self = AdsrStage::Idle;
                },
                _ => {},
            }
        }
    }
}

/// Between note events an envelope only moves forward through attack,
/// decay, sustain, release and idle, one stage at a time; sustain and idle
/// hold.
pub proof fn lemma_advance_moves_forward(s: AdsrStage, reached: bool)
    ensures
        stage_rank(s) <= stage_rank(spec_advance(s, reached)) <= stage_rank(s) + 1,
        s == AdsrStage::Sustain ==> spec_advance(s, reached) == AdsrStage::Sustain,
        s == AdsrStage::Idle ==> spec_advance(s, reached) == AdsrStage::Idle,
        !reached ==> spec_advance(s, reached) == s,
{
}

/// The stage order, stated stage by stage: a segment that reaches its
/// target hands over to the next stage (attack to decay, decay to sustain,
/// release to idle); a segment that does not stays; sustain and idle hold.
pub proof fn lemma_stage_order(s: AdsrStage, reached: bool)
    ensures
        !reached ==> spec_advance(s, reached) == s,
        reached && s == AdsrStage::Attack ==> spec_advance(s, reached) == AdsrStage::Decay,
        reached && s == AdsrStage::Decay ==> spec_advance(s, reached) == AdsrStage::Sustain,
        reached && s == AdsrStage::Release ==> spec_advance(s, reached) == AdsrStage::Idle,
        s == AdsrStage::Sustain || s == AdsrStage::Idle ==> spec_advance(s, reached) == s,
{
}

/// Only a release that reaches zero makes a sounding envelope idle.
pub proof fn lemma_falls_idle_only_from_release(s: AdsrStage, reached: bool)
    ensures
        s != AdsrStage::Idle && spec_advance(s, reached) == AdsrStage::Idle ==> s
            == AdsrStage::Release && reached,
{
}

} // verus!
