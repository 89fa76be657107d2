//! The actions and the round summary of a scripted game that tests of the
//! search use.

use vstd::prelude::*;

verus! {

#[derive(Clone, Debug, Default, PartialEq, Eq, Structural)]
pub struct TestHyperreward {
    pub value: i32,
}

#[derive(Debug, PartialEq, Eq, Hash)]
pub enum InjectableGameAction {
    Win,
    Lose,
    WinInXTurns(u8),
    NextTurnInjectActionCount(u8),
    Nothing,
    NextTurnGameAction(Vec<InjectableGameAction>),
}

impl InjectableGameAction {
    /// A copy of this action, and of every action it holds.
    pub fn duplicate(&self) -> (r: InjectableGameAction)
        ensures
            match *self {
                InjectableGameAction::NextTurnGameAction(v) => r matches InjectableGameAction::NextTurnGameAction(w) && w.len() == v.len(),
                _ => r == *self,
            },
        decreases self,
    {
        match self {
            InjectableGameAction::Win => InjectableGameAction::Win,
            InjectableGameAction::Lose => InjectableGameAction::Lose,
            InjectableGameAction::WinInXTurns(n) => InjectableGameAction::WinInXTurns(*n),
            InjectableGameAction::NextTurnInjectActionCount(n) => InjectableGameAction::NextTurnInjectActionCount(*n),
            InjectableGameAction::Nothing => InjectableGameAction::Nothing,
            InjectableGameAction::NextTurnGameAction(actions) => {
                let mut r: Vec<InjectableGameAction> = Vec::new();
                let mut i: usize = 0;
                while i < actions.len()
                    invariant
                        i <= actions.len(),
                        r.len() == i,
                        *self == InjectableGameAction::NextTurnGameAction(*actions),
                    decreases actions.len() - i,
                {
                    proof {
                        assert(*actions == self->NextTurnGameAction_0);
                        assert(decreases_to!(*self => self->NextTurnGameAction_0));
                        assert(decreases_to!(*actions => actions@));
                        assert(decreases_to!(actions@ => actions@[i as int]));
                        assert(decreases_to!(*self => actions@[i as int]));
                    }
                    r.push(actions[i].duplicate());
                    i += 1;
                }
                InjectableGameAction::NextTurnGameAction(r)
            },
        }
    }
}

impl Clone for InjectableGameAction {
    fn clone(&self) -> (r: Self) {
        self.duplicate()
    }
}

} // verus!
