//! The player: a rectangle under gravity that can jump from the ground.

use crate::world::{
    Rect, RectView, GRAVITY, GROUND_Y, JUMP_VELOCITY, PLAYER_HEIGHT, PLAYER_WIDTH, PLAYER_X,
};
use vstd::prelude::*;

verus! {

/// The player over the mathematical integers.
pub struct PlayerView {
    pub rect: RectView,
    pub velocity: int,
    pub jumping: bool,
}

impl PlayerView {
    /// The player at the start of a run: standing on the ground, at rest.
    pub open spec fn start() -> PlayerView {
        PlayerView {
            rect: RectView {
                x: PLAYER_X as int,
                y: GROUND_Y as int,
                w: PLAYER_WIDTH as int,
                h: PLAYER_HEIGHT as int,
            },
            velocity: 0,
            jumping: false,
        }
    }

    /// The quantity that free flight conserves from tick to tick.
    pub open spec fn energy(self) -> int {
        2 * GRAVITY * self.rect.y - self.velocity * (self.velocity + GRAVITY)
    }

    /// The energy of a player that has just left the ground.
    pub open spec fn launch_energy() -> int {
        2 * GRAVITY * GROUND_Y - JUMP_VELOCITY * (JUMP_VELOCITY + GRAVITY)
    }

    /// What holds of the player between any two operations: on the ground it
    /// is at rest at ground level; in the air it is on the one trajectory
    /// that a jump from the ground starts.
    pub open spec fn wf(self) -> bool {
        &&& self.rect.x == PLAYER_X
        &&& self.rect.w == PLAYER_WIDTH
        &&& self.rect.h == PLAYER_HEIGHT
        &&& if self.jumping {
            &&& JUMP_VELOCITY <= self.velocity
            &&& self.rect.y <= GROUND_Y
            &&& self.energy() == Self::launch_energy()
        } else {
            &&& self.rect.y == GROUND_Y
            &&& self.velocity == 0
        }
    }

    /// The player after a jump request: launched if it stood on the ground,
    /// unchanged if it was already in the air.
    pub open spec fn jumped(self) -> PlayerView {
        if self.jumping {
            self
        } else {
            PlayerView { velocity: JUMP_VELOCITY as int, jumping: true, ..self }
        }
    }

    /// The player after one tick: in the air, gravity is added to the
    /// velocity and the velocity to the height; a player that reaches ground
    /// level is put on the ground, at rest. On the ground nothing changes.
    pub open spec fn stepped(self) -> PlayerView {
        if !self.jumping {
            self
        } else {
            let velocity = self.velocity + GRAVITY;
            let y = self.rect.y + velocity;
            if y >= GROUND_Y {
                PlayerView {
                    rect: RectView { y: GROUND_Y as int, ..self.rect },
                    velocity: 0,
                    jumping: false,
                }
            } else {
                PlayerView { rect: RectView { y, ..self.rect }, velocity, jumping: true }
            }
        }
    }
}

/// A well-formed player in the air is slower than its launch and between the
/// apex of the jump and the ground.
pub proof fn lemma_airborne_bounds(p: PlayerView)
    requires
        p.wf(),
        p.jumping,
    ensures
        JUMP_VELOCITY <= p.velocity < -JUMP_VELOCITY,
        204 * 1024 <= p.rect.y <= GROUND_Y,
{
    let v = p.velocity;
    let y = p.rect.y;
    assert(1024 * y - v * (v + 512) == 214958080) by (nonlinear_arith)
        requires
            2 * 512 * y - v * (v + 512) == 2 * 512 * 307200 - (-10240) * ((-10240) + 512),
    ;
    assert(v < 10240) by (nonlinear_arith)
        requires
            1024 * y - v * (v + 512) == 214958080,
            y <= 307200,
    ;
    assert(y >= 208896) by (nonlinear_arith)
        requires
            1024 * y - v * (v + 512) == 214958080,
    ;
}

/// A tick keeps a well-formed player well-formed.
pub proof fn lemma_step_preserves_wf(p: PlayerView)
    requires
        p.wf(),
    ensures
        p.stepped().wf(),
{
    if p.jumping {
        lemma_airborne_bounds(p);
        let v = p.velocity;
        let y = p.rect.y;
        let v2 = v + 512;
        let y2 = y + v2;
        assert(2 * 512 * y2 - v2 * (v2 + 512) == 2 * 512 * y - v * (v + 512)) by (nonlinear_arith)
            requires
                v2 == v + 512,
                y2 == y + v2,
        ;
    }
}

/// A second jump request with no tick in between changes nothing.
pub proof fn lemma_jump_idempotent(p: PlayerView)
    ensures
        p.jumped().jumped() == p.jumped(),
{
}

/// A player that is not jumping stands at ground level, at rest; and a tick
/// that ends a jump leaves it so, whatever the state before.
pub proof fn lemma_ground_clamp(p: PlayerView)
    ensures
        p.wf() && !p.jumping ==> p.rect.y == GROUND_Y && p.velocity == 0,
        p.jumping && !p.stepped().jumping ==> p.stepped().rect.y == GROUND_Y
            && p.stepped().velocity == 0,
{
}

/// The player.
#[derive(Clone, Copy, Debug, PartialEq, Eq)]
pub struct Player {
    rect: Rect,
    velocity: i64,
    jumping: bool,
}

impl View for Player {
    type V = PlayerView;

    closed spec fn view(&self) -> PlayerView {
        PlayerView { rect: self.rect@, velocity: self.velocity as int, jumping: self.jumping }
    }
}

impl Player {
    /// Every player is well-formed.
    #[verifier::type_invariant]
    pub open spec fn well_formed(self) -> bool {
        self@.wf()
    }

    /// A player standing on the ground, at rest.
    pub fn new() -> (p: Player)
        ensures
            p@ == PlayerView::start(),
    {
        Player {
            rect: Rect { x: PLAYER_X, y: GROUND_Y, w: PLAYER_WIDTH, h: PLAYER_HEIGHT },
            velocity: 0,
            jumping: false,
        }
    }

    /// Launches the player if it stands on the ground; in the air the request
    /// is dropped.
    pub fn jump(&mut self)
        ensures
            final(self)@ == old(self)@.jumped(),
            final(self)@.wf(),
    {
        proof {
            use_type_invariant(&*self);
        }
        if !self.jumping {
            *self = Player { rect: self.rect, velocity: JUMP_VELOCITY, jumping: true };
        }
    }

    /// Advances the player by one tick of gravity.
    pub fn step(&mut self)
        ensures
            final(self)@ == old(self)@.stepped(),
            final(self)@.wf(),
    {
        proof {
            use_type_invariant(&*self);
            lemma_step_preserves_wf(self@);
        }
        if self.jumping {
            proof {
                lemma_airborne_bounds(self@);
            }
            let velocity = self.velocity + GRAVITY;
            let y = self.rect.y + velocity;
            if y >= GROUND_Y {
                *self = Player {
                    rect: Rect { x: self.rect.x, y: GROUND_Y, w: self.rect.w, h: self.rect.h },
                    velocity: 0,
                    jumping: false,
                };
            } else {
                *self = Player {
                    rect: Rect { x: self.rect.x, y, w: self.rect.w, h: self.rect.h },
                    velocity,
                    jumping: true,
                };
            }
        }
    }

    /// The player's rectangle.
    pub fn rect(&self) -> (r: Rect)
        ensures
            r@ == self@.rect,
            self@.wf(),
    {
        proof {
            use_type_invariant(self);
        }
        self.rect
    }

    /// The player's vertical velocity, in steps per tick; positive is down.
    pub fn velocity(&self) -> (v: i64)
        ensures
            v == self@.velocity,
            self@.wf(),
    {
        proof {
            use_type_invariant(self);
        }
        self.velocity
    }

    /// Whether the player is in the air.
    pub fn is_jumping(&self) -> (b: bool)
        ensures
            b == self@.jumping,
            self@.wf(),
    {
        proof {
            use_type_invariant(self);
        }
        self.jumping
    }
}

} // verus!
