//! The simulation: one player, the obstacles on the screen in the order in
//! which they entered, and the score, which counts the ticks.

use crate::obstacle::{
    advance_and_cull, all_wf, draw_height, lemma_survivors_keep, lemma_survivors_push,
    lemma_survivors_sound, survivors, valid_height, views, Obstacle, ObstacleView,
};
use crate::player::{lemma_step_preserves_wf, Player, PlayerView};
use crate::world::{Rect, GROUND_Y, MIN_OBSTACLE_HEIGHT, SPAWN_INTERVAL};
use vstd::prelude::*;

verus! {

/// What can happen to a simulation: a jump request, or a tick with the
/// height for the obstacle that enters if one is due.
pub enum Event {
    Jump,
    Tick { height: int },
}

/// The simulation over the mathematical integers.
pub struct SimulationView {
    pub player: PlayerView,
    pub obstacles: Seq<ObstacleView>,
    pub score: nat,
}

impl SimulationView {
    /// The start of a run: the player on the ground, no obstacle, score 0.
    pub open spec fn initial() -> SimulationView {
        SimulationView { player: PlayerView::start(), obstacles: Seq::empty(), score: 0 }
    }

    /// What holds between any two operations: the player and every obstacle
    /// are well-formed.
    pub open spec fn wf(self) -> bool {
        self.player.wf() && all_wf(self.obstacles)
    }

    /// Whether the next tick brings a new obstacle: the score, before the
    /// tick counts itself, is a multiple of the spawn interval.
    pub open spec fn spawn_due(self) -> bool {
        self.score % (SPAWN_INTERVAL as nat) == 0
    }

    /// The simulation after a jump request.
    pub open spec fn jumped(self) -> SimulationView {
        SimulationView { player: self.player.jumped(), ..self }
    }

    /// The obstacles after the spawning step of a tick: one of the given
    /// height is added at the end if one is due.
    pub open spec fn entered(self, height: int) -> Seq<ObstacleView> {
        if self.spawn_due() {
            self.obstacles.push(ObstacleView::spawned(height))
        } else {
            self.obstacles
        }
    }

    /// The simulation after one tick. In this order: the player is stepped;
    /// if an obstacle is due, one of the given height enters; every obstacle
    /// advances; those off the screen are taken out; the score counts the
    /// tick. The height plays no part when no obstacle is due.
    pub open spec fn ticked(self, height: int) -> SimulationView {
        SimulationView {
            player: self.player.stepped(),
            obstacles: survivors(self.entered(height)),
            score: self.score + 1,
        }
    }

    /// The simulation after the given events, in their order.
    pub open spec fn after(self, events: Seq<Event>) -> SimulationView
        decreases events.len(),
    {
        if events.len() == 0 {
            self
        } else {
            let before = self.after(events.drop_last());
            match events.last() {
                Event::Jump => before.jumped(),
                Event::Tick { height } => before.ticked(height),
            }
        }
    }
}

/// The number of ticks among the given events.
pub open spec fn ticks_in(events: Seq<Event>) -> nat
    decreases events.len(),
{
    if events.len() == 0 {
        0
    } else {
        let before = ticks_in(events.drop_last());
        match events.last() {
            Event::Jump => before,
            Event::Tick { .. } => before + 1,
        }
    }
}

/// Whether every tick among the given events carries a valid height.
pub open spec fn valid_events(events: Seq<Event>) -> bool {
    forall|i: int|
        0 <= i < events.len() ==> match #[trigger] events[i] {
            Event::Jump => true,
            Event::Tick { height } => valid_height(height),
        }
}

/// A tick keeps a well-formed simulation well-formed, given a valid height
/// where an obstacle is due.
pub proof fn lemma_tick_preserves_wf(s: SimulationView, height: int)
    requires
        s.wf(),
        s.spawn_due() ==> valid_height(height),
    ensures
        s.ticked(height).wf(),
{
    lemma_step_preserves_wf(s.player);
    let entered = s.entered(height);
    assert(all_wf(entered)) by {
        assert forall|i: int| 0 <= i < entered.len() implies (#[trigger] entered[i]).wf() by {
            if i < s.obstacles.len() {
                assert(s.obstacles[i].wf());
            }
        }
    }
    lemma_survivors_sound(entered);
}

/// An obstacle enters on a tick exactly when the score before the tick is a
/// multiple of the spawn interval: then the obstacles after the tick are the
/// survivors of those before it followed by the new one, one step into the
/// screen; on any other tick they are the survivors alone.
pub proof fn lemma_spawn_cadence(s: SimulationView, height: int)
    ensures
        s.score % 100 == 0 ==> s.ticked(height).obstacles == survivors(s.obstacles).push(
            ObstacleView::spawned(height).advanced(),
        ),
        s.score % 100 != 0 ==> s.ticked(height).obstacles == survivors(s.obstacles),
{
    lemma_survivors_push(s.obstacles, ObstacleView::spawned(height));
}

/// In a run from the start the score is the number of ticks so far, so an
/// obstacle enters on the ticks numbered 0, 100, 200 and so on, and on no
/// others.
pub proof fn lemma_spawn_ticks(events: Seq<Event>)
    ensures
        SimulationView::initial().after(events).score == ticks_in(events),
        SimulationView::initial().after(events).spawn_due() <==> ticks_in(events) % 100 == 0,
{
    lemma_score_counts_ticks(SimulationView::initial(), events);
}

/// After a tick every obstacle is right of the screen's left edge: one that
/// was at or beyond it once advanced is gone, and the others are all there.
pub proof fn lemma_culling(s: SimulationView, height: int)
    ensures
        forall|i: int|
            0 <= i < s.ticked(height).obstacles.len() ==> (
            #[trigger] s.ticked(height).obstacles[i]).rect.x > 0,
        forall|j: int|
            0 <= j < s.entered(height).len() ==> (s.ticked(height).obstacles.contains(
                (#[trigger] s.entered(height)[j]).advanced(),
            ) <==> s.entered(height)[j].advanced().rect.x > 0),
{
    let entered = s.entered(height);
    let left = s.ticked(height).obstacles;
    lemma_survivors_sound(entered);
    assert forall|j: int| 0 <= j < entered.len() implies (left.contains(
        (#[trigger] entered[j]).advanced(),
    ) <==> entered[j].advanced().rect.x > 0) by {
        if entered[j].advanced().rect.x > 0 {
            lemma_survivors_keep(entered, j);
        }
        if left.contains(entered[j].advanced()) {
            let k = choose|k: int| 0 <= k < left.len() && left[k] == entered[j].advanced();
            assert(left[k].on_screen());
        }
    }
}

/// Every tick adds one to the score, whatever the state, and a jump request
/// leaves it: after any events the score has grown by the number of ticks.
pub proof fn lemma_score_counts_ticks(s: SimulationView, events: Seq<Event>)
    ensures
        forall|height: int| (#[trigger] s.ticked(height)).score == s.score + 1,
        s.jumped().score == s.score,
        s.after(events).score == s.score + ticks_in(events),
    decreases events.len(),
{
    if events.len() > 0 {
        lemma_score_counts_ticks(s, events.drop_last());
    }
}

/// A second jump request with no tick in between changes nothing.
pub proof fn lemma_jump_idempotent(s: SimulationView)
    ensures
        s.jumped().jumped() == s.jumped(),
{
}

/// After any jump requests and ticks with valid heights a well-formed
/// simulation is well-formed, and so a player that is not jumping then
/// stands at ground level, at rest.
pub proof fn lemma_ground_clamp(s: SimulationView, events: Seq<Event>)
    requires
        s.wf(),
        valid_events(events),
    ensures
        s.after(events).wf(),
        !s.after(events).player.jumping ==> s.after(events).player.rect.y == GROUND_Y
            && s.after(events).player.velocity == 0,
    decreases events.len(),
{
    if events.len() > 0 {
        let earlier = events.drop_last();
        assert forall|i: int| 0 <= i < earlier.len() implies match #[trigger] earlier[i] {
            Event::Jump => true,
            Event::Tick { height } => valid_height(height),
        } by {
            assert(earlier[i] == events[i]);
        }
        lemma_ground_clamp(s, earlier);
        match events.last() {
            Event::Jump => {},
            Event::Tick { height } => {
                assert(valid_height(height)) by {
                    assert(events[events.len() - 1] == events.last());
                }
                lemma_tick_preserves_wf(s.after(earlier), height);
            },
        }
    }
}

/// The simulation.
#[derive(Debug)]
pub struct RunnerSimulation {
    player: Player,
    obstacles: Vec<Obstacle>,
    score: u32,
}

impl View for RunnerSimulation {
    type V = SimulationView;

    closed spec fn view(&self) -> SimulationView {
        SimulationView {
            player: self.player@,
            obstacles: views(self.obstacles@),
            score: self.score as nat,
        }
    }
}

impl RunnerSimulation {
    /// The player and every obstacle of a simulation are well-formed.
    #[verifier::type_invariant]
    pub open spec fn well_formed(self) -> bool {
        self@.wf()
    }

    /// The start of a run.
    pub fn new() -> (sim: RunnerSimulation)
        ensures
            sim@ == SimulationView::initial(),
    {
        let obstacles: Vec<Obstacle> = Vec::new();
        proof {
            assert(views(obstacles@) =~= Seq::empty());
        }
        RunnerSimulation { player: Player::new(), obstacles, score: 0 }
    }

    /// Takes a jump request: launches the player if it stands on the ground,
    /// and does nothing if it is in the air.
    pub fn jump(&mut self)
        ensures
            final(self)@ == old(self)@.jumped(),
            final(self)@.wf(),
    {
        proof {
            use_type_invariant(&*self);
        }
        let mut player = self.player;
        player.jump();
        self.player = player;
    }

    /// Advances the simulation by one tick, with the given height for the
    /// obstacle that enters if one is due.
    pub fn tick_with(&mut self, height: i64)
        requires
            old(self)@.score < u32::MAX,
            old(self)@.spawn_due() ==> valid_height(height as int),
        ensures
            final(self)@ == old(self)@.ticked(height as int),
            final(self)@.score == old(self)@.score + 1,
            final(self)@.wf(),
    {
        proof {
            use_type_invariant(&*self);
            lemma_tick_preserves_wf(self@, height as int);
        }
        let mut player = self.player;
        player.step();
        let mut row = advance_and_cull(&self.obstacles);
        if self.score % SPAWN_INTERVAL == 0 {
            let entering = Obstacle::spawn(height);
            proof {
                lemma_survivors_push(self@.obstacles, entering@);
            }
            match entering.advance() {
                Some(moved) => {
                    proof {
                        use_type_invariant(&moved);
                        assert(views(row@.push(moved)) =~= views(row@).push(moved@));
                    }
                    row.push(moved);
                },
                None => {},
            }
        }
        self.player = player;
        self.obstacles = row;
        self.score = self.score + 1;
    }

    /// Advances the simulation by one tick; the obstacle that enters if one
    /// is due has a height drawn at random.
    pub fn tick(&mut self)
        requires
            old(self)@.score < u32::MAX,
        ensures
            exists|height: int| valid_height(height) && final(self)@ == old(self)@.ticked(height),
            final(self)@.score == old(self)@.score + 1,
            final(self)@.wf(),
    {
        let height = if self.score % SPAWN_INTERVAL == 0 {
            draw_height()
        } else {
            MIN_OBSTACLE_HEIGHT
        };
        self.tick_with(height);
        proof {
            assert(valid_height(height as int));
        }
    }

    /// The player as it is now.
    pub fn player(&self) -> (p: Player)
        ensures
            p@ == self@.player,
            self@.wf(),
    {
        proof {
            use_type_invariant(self);
        }
        self.player
    }

    /// The player's rectangle as it is now.
    pub fn player_rect(&self) -> (rect: Rect)
        ensures
            rect@ == self@.player.rect,
    {
        self.player.rect()
    }

    /// The rectangles of the obstacles on the screen, in the order in which
    /// the obstacles entered.
    pub fn obstacle_rects(&self) -> (rects: Vec<Rect>)
        ensures
            rects@.len() == self@.obstacles.len(),
            forall|i: int|
                0 <= i < rects@.len() ==> (#[trigger] rects@[i])@ == self@.obstacles[i].rect,
    {
        let mut rects: Vec<Rect> = Vec::new();
        let mut i: usize = 0;
        while i < self.obstacles.len()
            invariant
                i <= self.obstacles.len(),
                rects@.len() == i,
                forall|k: int|
                    0 <= k < i ==> (#[trigger] rects@[k])@ == views(self.obstacles@)[k].rect,
            decreases self.obstacles.len() - i,
        {
            rects.push(self.obstacles[i].rect());
            i += 1;
        }
        rects
    }

    /// The obstacles on the screen, in the order in which they entered.
    pub fn obstacles(&self) -> (row: &Vec<Obstacle>)
        ensures
            views(row@) == self@.obstacles,
            self@.wf(),
    {
        proof {
            use_type_invariant(self);
        }
        &self.obstacles
    }

    /// The number of ticks since the start of the run.
    pub fn score(&self) -> (score: u32)
        ensures
            score == self@.score,
    {
        self.score
    }
}

} // verus!
