//! Game components whose state is plain integers: bullets, damage, and the
//! player's controller.
use vstd::prelude::*;
use crate::entity::EntityId;
use crate::ecs::Component;
use crate::events::Listener;

verus! {

/// Notice that the moving entity ran into another one.
#[derive(Clone, Copy, Debug, PartialEq, Eq, Structural)]
pub enum CollisionEvent {
    OnEntity(EntityId),
}

/// A projectile: the damage it deals, who fired it, and what it hit.
#[derive(Clone, Copy, Debug, PartialEq, Eq, Structural)]
pub struct Bullet {
    pub entity: EntityId,
    pub damage: u32,
    pub owner: EntityId,
    pub target: Option<EntityId>,
}

impl Bullet {
    pub fn new(entity: EntityId, owner: EntityId, damage: u32) -> (r: Self)
        ensures
            r == (Bullet { entity, damage, owner, target: None }),
    {
        Bullet { entity, damage, owner, target: None }
    }

    pub fn get_damage(&self) -> (r: u32)
        ensures
            r == self.damage,
    {
        self.damage
    }

    pub fn get_owner(&self) -> (r: EntityId)
        ensures
            r == self.owner,
    {
        self.owner
    }

    /// The entity hit since the last call, which is forgotten.
    pub fn consume_target(&mut self) -> (r: Option<EntityId>)
        ensures
            r == old(self).target,
            *final(self) == (Bullet { target: None, ..*old(self) }),
    {
        let t = self.target;
        self.target = None;
        t
    }
}

impl Listener<CollisionEvent> for Bullet {
    /// A collision records the entity hit.
    open spec fn after_event(self, event: CollisionEvent) -> Self {
        match event {
            CollisionEvent::OnEntity(id) => Bullet { target: Some(id), ..self },
        }
    }

    fn on_event(&mut self, event: CollisionEvent) {
        match event {
            CollisionEvent::OnEntity(id) => {
                self.target = Some(id);
            },
        }
    }
}

/// Health that damage wears down to zero.
#[derive(Clone, Copy, Debug, PartialEq, Eq, Structural)]
pub struct Damagable {
    pub entity: EntityId,
    pub health: u32,
}

impl Damagable {
    pub fn new(entity: EntityId, health: u32) -> (r: Self)
        ensures
            r == (Damagable { entity, health }),
    {
        Damagable { entity, health }
    }

    /// Subtracts `damage`, stopping at zero. Returns whether the health ran
    /// out, in which case the owner is to be destroyed.
    pub fn do_damage(&mut self, damage: u32) -> (died: bool)
        ensures
            final(self).entity == old(self).entity,
            final(self).health == if old(self).health > damage { old(self).health - damage } else { 0 },
            died == (old(self).health <= damage),
    {
        if self.health > damage {
            self.health = self.health - damage;
            false
        } else {
            self.health = 0;
            true
        }
    }

    pub fn is_dead(&self) -> (r: bool)
        ensures
            r == (self.health == 0),
    {
        self.health == 0
    }

    pub fn kill(&mut self)
        ensures
            *final(self) == (Damagable { health: 0, ..*old(self) }),
    {
        self.health = 0;
    }
}

#[derive(Clone, Copy, Debug, PartialEq, Eq, Structural)]
pub enum PlayerState {
    Idle,
    Move,
}

/// What a key press asks of a player.
#[derive(Clone, Copy, Debug, PartialEq, Eq, Structural)]
pub enum PlayerAction {
    MoveLeft,
    MoveRight,
    MoveTop,
    MoveDown,
    Shoot,
    NoAction,
}

/// A facing: a unit step along one axis.
#[derive(Clone, Copy, Debug, PartialEq, Eq, Structural)]
pub struct Direction {
    pub x: i32,
    pub y: i32,
}

/// The facing after `action`: a unit step for a move, else unchanged.
pub open spec fn direction_after(direction: Direction, action: PlayerAction) -> Direction {
    match action {
        PlayerAction::MoveLeft => Direction { x: -1i32, y: 0i32 },
        PlayerAction::MoveRight => Direction { x: 1i32, y: 0i32 },
        PlayerAction::MoveTop => Direction { x: 0i32, y: 1i32 },
        PlayerAction::MoveDown => Direction { x: 0i32, y: -1i32 },
        PlayerAction::Shoot | PlayerAction::NoAction => direction,
    }
}

/// The state after `action`: moving for a move, unchanged for a shot,
/// idle otherwise.
pub open spec fn state_after(state: PlayerState, action: PlayerAction) -> PlayerState {
    match action {
        PlayerAction::MoveLeft | PlayerAction::MoveRight | PlayerAction::MoveTop | PlayerAction::MoveDown => PlayerState::Move,
        PlayerAction::Shoot => state,
        PlayerAction::NoAction => PlayerState::Idle,
    }
}

/// Turns a player's actions into a facing and a movement state.
#[derive(Clone, Copy, Debug, PartialEq, Eq, Structural)]
pub struct PlayerController {
    pub entity: EntityId,
    pub direction: Direction,
    pub player_index: u32,
    pub state: PlayerState,
}

impl PlayerController {
    pub fn new(entity: EntityId, player_index: u32, direction: Direction) -> (r: Self)
        ensures
            r == (PlayerController { entity, direction, player_index, state: PlayerState::Idle }),
    {
        PlayerController { entity, direction, player_index, state: PlayerState::Idle }
    }
}

impl Listener<PlayerAction> for PlayerController {
    open spec fn after_event(self, action: PlayerAction) -> Self {
        PlayerController {
            direction: direction_after(self.direction, action),
            state: state_after(self.state, action),
            ..self
        }
    }

    fn on_event(&mut self, player_input: PlayerAction) {
        self.direction = match player_input {
            PlayerAction::MoveLeft => Direction { x: -1i32, y: 0i32 },
            PlayerAction::MoveRight => Direction { x: 1i32, y: 0i32 },
            PlayerAction::MoveTop => Direction { x: 0i32, y: 1i32 },
            PlayerAction::MoveDown => Direction { x: 0i32, y: -1i32 },
            PlayerAction::NoAction | PlayerAction::Shoot => self.direction,
        };
        self.state = match player_input {
            PlayerAction::MoveLeft | PlayerAction::MoveRight | PlayerAction::MoveTop | PlayerAction::MoveDown => PlayerState::Move,
            PlayerAction::Shoot => self.state,
            PlayerAction::NoAction => PlayerState::Idle,
        };
    }
}

impl Component for Bullet {
    open spec fn owner(&self) -> EntityId {
        self.entity
    }

    fn get_entity_id(&self) -> (r: EntityId) {
        self.entity
    }
}

impl Component for Damagable {
    open spec fn owner(&self) -> EntityId {
        self.entity
    }

    fn get_entity_id(&self) -> (r: EntityId) {
        self.entity
    }
}

impl Component for PlayerController {
    open spec fn owner(&self) -> EntityId {
        self.entity
    }

    fn get_entity_id(&self) -> (r: EntityId) {
        self.entity
    }
}

} // verus!
