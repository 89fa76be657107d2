//! The actors of the dungeon: the player and the monsters.

use vstd::prelude::*;
use crate::utwid::types::{Repr, ReprSet, ACTOR_TYPE_YOU, ACTOR_TYPE_MONTE, ACTOR_TYPE_THEM, ACTOR_TYPE_ARE, ACTOR_TYPE_ONE};

verus! {

#[derive(Copy, Clone, PartialEq, Eq, Hash, Debug, Structural)]
pub struct ActorTraits {
    pub human: bool,
    pub mon2y: bool,
    pub cardinal_move: bool,
    pub diagonal_move: bool,
    pub wait: bool,
    pub dead: bool,
    pub melee: bool,
    pub bomb: bool,
}

#[derive(Copy, Clone, PartialEq, Eq, Debug, Structural)]
pub enum Allegiance {
    You,
    Monty,
}

/// Which search tree plays a monster, and how hard it searches.
#[derive(Copy, Clone, PartialEq, Eq, Debug, Structural)]
pub struct Mon2yData {
    pub tree_id: u8,
    pub iterations: usize,
}

#[derive(Copy, Clone, PartialEq, Eq, Debug, Structural)]
pub struct GameActor {
    pub x: usize,
    pub y: usize,
    pub actor_type: usize,
    pub traits: ActorTraits,
    pub mon2y: Option<Mon2yData>,
    pub repr: Option<Repr>,
    pub repr_set: ReprSet,
    pub health: Option<usize>,
    pub attack_damage: Option<usize>,
    pub allegiance: Allegiance,
}

pub open spec fn no_traits() -> ActorTraits {
    ActorTraits {
        human: false,
        mon2y: false,
        cardinal_move: false,
        diagonal_move: false,
        wait: false,
        dead: false,
        melee: false,
        bomb: false,
    }
}

/// An actor after a change of `d` to its health: missing health counts as
/// zero, health does not go below zero, and an actor left with none is dead.
pub open spec fn hurt_actor(a: GameActor, d: int) -> GameActor {
    let current = match a.health {
        Some(h) => h as int,
        None => 0,
    };
    let n = if current + d < 0 { 0 } else { current + d };
    GameActor {
        health: Some(n as usize),
        traits: if n == 0 { ActorTraits { dead: true, ..a.traits } } else { a.traits },
        ..a
    }
}

pub open spec fn spec_you_actor() -> GameActor {
    GameActor {
        x: 1,
        y: 3,
        actor_type: ACTOR_TYPE_YOU,
        traits: ActorTraits { human: true, cardinal_move: true, diagonal_move: true, melee: true, ..no_traits() },
        mon2y: None,
        repr: Some(Repr::You),
        repr_set: ReprSet::Room1,
        health: Some(7),
        attack_damage: Some(1),
        allegiance: Allegiance::You,
    }
}

pub open spec fn spec_monte_actor() -> GameActor {
    GameActor {
        x: 7,
        y: 7,
        actor_type: ACTOR_TYPE_MONTE,
        traits: ActorTraits { mon2y: true, cardinal_move: true, diagonal_move: true, wait: true, melee: true, ..no_traits() },
        mon2y: Some(Mon2yData { tree_id: 1, iterations: 1000 }),
        repr: Some(Repr::Monte),
        repr_set: ReprSet::Room1,
        health: Some(7),
        attack_damage: Some(1),
        allegiance: Allegiance::Monty,
    }
}

pub open spec fn spec_them_actor(x: usize, y: usize) -> GameActor {
    GameActor {
        x,
        y,
        actor_type: ACTOR_TYPE_THEM,
        traits: ActorTraits { mon2y: true, diagonal_move: true, melee: true, ..no_traits() },
        mon2y: Some(Mon2yData { tree_id: 1, iterations: 1000 }),
        repr: Some(Repr::Them),
        repr_set: ReprSet::Room1,
        health: Some(2),
        attack_damage: Some(1),
        allegiance: Allegiance::Monty,
    }
}

pub open spec fn spec_are_actor(x: usize, y: usize) -> GameActor {
    GameActor {
        x,
        y,
        actor_type: ACTOR_TYPE_ARE,
        traits: ActorTraits { mon2y: true, cardinal_move: true, melee: true, ..no_traits() },
        mon2y: Some(Mon2yData { tree_id: 1, iterations: 1000 }),
        repr: Some(Repr::Are),
        repr_set: ReprSet::Room1,
        health: Some(3),
        attack_damage: Some(2),
        allegiance: Allegiance::Monty,
    }
}

pub open spec fn spec_one_actor(x: usize, y: usize) -> GameActor {
    GameActor {
        x,
        y,
        actor_type: ACTOR_TYPE_ONE,
        traits: ActorTraits { mon2y: true, diagonal_move: true, cardinal_move: true, bomb: true, ..no_traits() },
        mon2y: Some(Mon2yData { tree_id: 1, iterations: 500 }),
        repr: Some(Repr::One),
        repr_set: ReprSet::Room1,
        health: Some(4),
        attack_damage: Some(5),
        allegiance: Allegiance::Monty,
    }
}

impl ActorTraits {
    pub fn empty() -> (r: ActorTraits)
        ensures
            r == no_traits(),
    {
        ActorTraits {
            human: false,
            mon2y: false,
            cardinal_move: false,
            diagonal_move: false,
            wait: false,
            dead: false,
            melee: false,
            bomb: false,
        }
    }
}

impl GameActor {
    pub fn repr(&self) -> (r: Option<Repr>)
        ensures
            r == self.repr,
    {
        self.repr
    }

    pub fn actor_type_name(&self) -> (r: &'static str)
        ensures
            self.actor_type == ACTOR_TYPE_YOU ==> r@ == "you"@,
            self.actor_type == ACTOR_TYPE_MONTE ==> r@ == "monte"@,
            self.actor_type == ACTOR_TYPE_THEM ==> r@ == "them"@,
            self.actor_type == ACTOR_TYPE_ARE ==> r@ == "are"@,
            self.actor_type == ACTOR_TYPE_ONE ==> r@ == "one"@,
            self.actor_type > ACTOR_TYPE_ONE ==> r@ == "unknown"@,
    {
        match self.actor_type {
            0 => "you",
            1 => "monte",
            2 => "them",
            3 => "are",
            4 => "one",
            _ => "unknown",
        }
    }

    pub fn modify_health(&mut self, d_health: isize)
        requires
            old(self).health matches Some(h) ==> h <= isize::MAX && h + d_health <= isize::MAX,
        ensures
            *final(self) == hurt_actor(*old(self), d_health as int),
    {
        let current: usize = match self.health {
            Some(h) => h,
            None => 0,
        };
        let total: i128 = current as i128 + d_health as i128;
        let new_health: usize = if total < 0 { 0 } else { total as usize };
        self.health = Some(new_health);
        if new_health == 0 {
            self.traits.dead = true;
        }
    }

    pub fn you_actor() -> (r: GameActor)
        ensures
            r == spec_you_actor(),
    {
        GameActor {
            x: 1,
            y: 3,
            actor_type: ACTOR_TYPE_YOU,
            traits: ActorTraits { human: true, cardinal_move: true, diagonal_move: true, melee: true, ..ActorTraits::empty() },
            mon2y: None,
            repr: Some(Repr::You),
            repr_set: ReprSet::Room1,
            health: Some(7),
            attack_damage: Some(1),
            allegiance: Allegiance::You,
        }
    }

    pub fn monte_actor() -> (r: GameActor)
        ensures
            r == spec_monte_actor(),
    {
        GameActor {
            x: 7,
            y: 7,
            actor_type: ACTOR_TYPE_MONTE,
            traits: ActorTraits { mon2y: true, cardinal_move: true, diagonal_move: true, wait: true, melee: true, ..ActorTraits::empty() },
            mon2y: Some(Mon2yData { tree_id: 1, iterations: 1000 }),
            repr: Some(Repr::Monte),
            repr_set: ReprSet::Room1,
            health: Some(7),
            attack_damage: Some(1),
            allegiance: Allegiance::Monty,
        }
    }

    pub fn them_actor(x: usize, y: usize) -> (r: GameActor)
        ensures
            r == spec_them_actor(x, y),
    {
        GameActor {
            x,
            y,
            actor_type: ACTOR_TYPE_THEM,
            traits: ActorTraits { mon2y: true, diagonal_move: true, melee: true, ..ActorTraits::empty() },
            mon2y: Some(Mon2yData { tree_id: 1, iterations: 1000 }),
            repr: Some(Repr::Them),
            repr_set: ReprSet::Room1,
            health: Some(2),
            attack_damage: Some(1),
            allegiance: Allegiance::Monty,
        }
    }

    pub fn are_actor(x: usize, y: usize) -> (r: GameActor)
        ensures
            r == spec_are_actor(x, y),
    {
        GameActor {
            x,
            y,
            actor_type: ACTOR_TYPE_ARE,
            traits: ActorTraits { mon2y: true, cardinal_move: true, melee: true, ..ActorTraits::empty() },
            mon2y: Some(Mon2yData { tree_id: 1, iterations: 1000 }),
            repr: Some(Repr::Are),
            repr_set: ReprSet::Room1,
            health: Some(3),
            attack_damage: Some(2),
            allegiance: Allegiance::Monty,
        }
    }

    pub fn one_actor(x: usize, y: usize) -> (r: GameActor)
        ensures
            r == spec_one_actor(x, y),
    {
        GameActor {
            x,
            y,
            actor_type: ACTOR_TYPE_ONE,
            traits: ActorTraits { mon2y: true, diagonal_move: true, cardinal_move: true, bomb: true, ..ActorTraits::empty() },
            mon2y: Some(Mon2yData { tree_id: 1, iterations: 500 }),
            repr: Some(Repr::One),
            repr_set: ReprSet::Room1,
            health: Some(4),
            attack_damage: Some(5),
            allegiance: Allegiance::Monty,
        }
    }
}

} // verus!
