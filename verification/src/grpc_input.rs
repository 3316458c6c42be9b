//! A fuzzing input: stored actions, resolved on first use.
use crate::error::ActionSequenceError;
use crate::poor::PAction;
use crate::sequence::{
    gen_poor_result, resolves_sequence, sequence_outcome, sequence_safe,
    ActionSequence,
};
use prost_reflect::DescriptorPool;
use vstd::prelude::*;

verus! {

/// A fuzzing input: its stored actions, and their resolution once made.
#[derive(Clone, Debug)]
pub struct GrpcInput {
    pub rich: Option<ActionSequence>,
    pub poor: Vec<PAction>,
}

impl GrpcInput {
    /// The resolved actions, resolving the stored ones in `proto` on first
    /// use; an error leaves the input unresolved.
    pub fn rich(&mut self, proto: &DescriptorPool) -> (r: Result<&ActionSequence, ActionSequenceError>)
        requires
            old(self).rich is None ==> sequence_safe(*proto, old(self).poor@),
        ensures
            final(self).poor == old(self).poor,
            match old(self).rich {
                Some(seq) => r == Ok::<&ActionSequence, ActionSequenceError>(&seq) && *final(self)
                    == *old(self),
                None => match sequence_outcome(*proto, old(self).poor@) {
                    Ok(_) => r matches Ok(seq) && final(self).rich == Some(*seq) && resolves_sequence(
                        *proto,
                        old(self).poor@,
                        *seq,
                    ),
                    Err(e) => r == Err::<&ActionSequence, ActionSequenceError>(e)
                        && final(self).rich is None,
                },
            },
    {
        if self.rich.is_none() {
            match ActionSequence::from_poor(self.poor.as_slice(), proto) {
                Ok(seq) => self.rich = Some(seq),
                Err(e) => return Err(e),
            }
        }
        match &self.rich {
            Some(seq) => Ok(seq),
            None => {
                proof {
                    assert(false);
                }
                Err(ActionSequenceError { kind: crate::error::ActionError::ProtoMismatch, index: 0 })
            },
        }
    }

    /// The resolved actions for changing, resolving the stored ones in
    /// `proto` on first use; an error leaves the input unresolved.
    pub fn rich_mut(&mut self, proto: &DescriptorPool) -> (r: Result<
        &mut ActionSequence,
        ActionSequenceError,
    >)
        requires
            old(self).rich is None ==> sequence_safe(*proto, old(self).poor@),
        ensures
            final(self).poor == old(self).poor,
            match old(self).rich {
                Some(seq) => r matches Ok(s) && *s == seq && final(self).rich == Some(*final(s)),
                None => match sequence_outcome(*proto, old(self).poor@) {
                    Ok(_) => r matches Ok(s) && resolves_sequence(*proto, old(self).poor@, *s)
                        && final(self).rich == Some(*final(s)),
                    Err(e) => r matches Err(e2) && e2 == e && final(self).rich is None,
                },
            },
    {
        if let Err(e) = self.rich(proto) {
            return Err(e);
        }
        match &mut self.rich {
            Some(seq) => Ok(seq),
            None => {
                proof {
                    assert(false);
                }
                Err(ActionSequenceError { kind: crate::error::ActionError::ProtoMismatch, index: 0 })
            },
        }
    }

    /// The stored form of the input: that of the resolved actions if they
    /// have been resolved, else the stored actions as they are.
    pub fn get_poor(&self) -> (r: Result<Vec<PAction>, ActionSequenceError>)
        ensures
            match self.rich {
                Some(seq) => match gen_poor_result(seq.actions@) {
                    Ok(ps) => r matches Ok(v) && v@.map_values(|p: PAction| p@) == ps,
                    Err(e) => r == Err::<Vec<PAction>, ActionSequenceError>(e),
                },
                None => r matches Ok(v) && v@.map_values(|p: PAction| p@) == self.poor@.map_values(
                    |p: PAction| p@,
                ),
            },
    {
        if let Some(rich) = &self.rich {
            return rich.gen_poor();
        }
        let poor = self.poor.clone();
        assert(poor@.map_values(|p: PAction| p@) =~= self.poor@.map_values(|p: PAction| p@)) by {
            assert forall|i: int| 0 <= i < poor@.len() implies poor@[i]@ == self.poor@[i]@ by {
                assert(vstd::pervasive::cloned::<PAction>(self.poor@[i], poor@[i]));
            }
        }
        Ok(poor)
    }
}

} // verus!
