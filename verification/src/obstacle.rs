//! Obstacles: rectangles that rest on the bottom edge of the screen, enter
//! at its right edge and travel left until they have left it.

use crate::random::random_in_range;
use crate::world::{
    Rect, RectView, MAX_OBSTACLE_HEIGHT, MIN_OBSTACLE_HEIGHT, OBSTACLE_SPEED, OBSTACLE_WIDTH,
    SCREEN_HEIGHT, SCREEN_WIDTH,
};
use vstd::prelude::*;

verus! {

/// Whether an obstacle may have this height: from the least height up to,
/// and not including, the bound above.
pub open spec fn valid_height(height: int) -> bool {
    MIN_OBSTACLE_HEIGHT <= height < MAX_OBSTACLE_HEIGHT
}

/// An obstacle over the mathematical integers.
pub struct ObstacleView {
    pub rect: RectView,
    pub speed: int,
}

impl ObstacleView {
    /// A new obstacle of the given height: at the right edge of the screen,
    /// resting on its bottom edge.
    pub open spec fn spawned(height: int) -> ObstacleView {
        ObstacleView {
            rect: RectView {
                x: SCREEN_WIDTH as int,
                y: SCREEN_HEIGHT - height,
                w: OBSTACLE_WIDTH as int,
                h: height,
            },
            speed: OBSTACLE_SPEED as int,
        }
    }

    /// The obstacle one tick later: moved left by its speed.
    pub open spec fn advanced(self) -> ObstacleView {
        ObstacleView { rect: RectView { x: self.rect.x - self.speed, ..self.rect }, ..self }
    }

    /// Whether the obstacle is kept: its left edge is right of the screen's.
    pub open spec fn on_screen(self) -> bool {
        self.rect.x > 0
    }

    /// The shape that every obstacle has from its spawning on.
    pub open spec fn shaped(self) -> bool {
        &&& valid_height(self.rect.h)
        &&& self.rect.w == OBSTACLE_WIDTH
        &&& self.rect.y == SCREEN_HEIGHT - self.rect.h
        &&& self.speed == OBSTACLE_SPEED
        &&& self.rect.x <= SCREEN_WIDTH
    }

    /// What holds of every obstacle: it has its shape and is on the screen.
    pub open spec fn wf(self) -> bool {
        self.shaped() && self.on_screen()
    }
}

/// What a tick leaves of a row of obstacles: each one advanced, those that
/// are then off the screen taken out, the others in their order.
pub open spec fn survivors(obstacles: Seq<ObstacleView>) -> Seq<ObstacleView> {
    obstacles.map_values(|o: ObstacleView| o.advanced()).filter(|o: ObstacleView| o.on_screen())
}

/// Whether every obstacle of a row is well-formed.
pub open spec fn all_wf(obstacles: Seq<ObstacleView>) -> bool {
    forall|i: int| 0 <= i < obstacles.len() ==> (#[trigger] obstacles[i]).wf()
}

/// The survivors of a row with one more obstacle at its end are those of the
/// row, followed by the advanced obstacle if it is still on the screen.
pub proof fn lemma_survivors_push(obstacles: Seq<ObstacleView>, last: ObstacleView)
    ensures
        survivors(obstacles.push(last)) == if last.advanced().on_screen() {
            survivors(obstacles).push(last.advanced())
        } else {
            survivors(obstacles)
        },
{
    let advance = |o: ObstacleView| o.advanced();
    let keep = |o: ObstacleView| o.on_screen();
    let moved = obstacles.map_values(advance);
    let longer = obstacles.push(last).map_values(advance);
    assert(longer =~= moved.push(last.advanced()));
    assert(longer.drop_last() =~= moved);
    reveal(Seq::filter);
    assert(longer.filter(keep) == if keep(longer.last()) {
        longer.drop_last().filter(keep).push(longer.last())
    } else {
        longer.drop_last().filter(keep)
    });
}

/// No obstacle has survived a tick.
pub proof fn lemma_survivors_empty()
    ensures
        survivors(Seq::<ObstacleView>::empty()) == Seq::<ObstacleView>::empty(),
{
    let advance = |o: ObstacleView| o.advanced();
    assert(Seq::<ObstacleView>::empty().map_values(advance) =~= Seq::<ObstacleView>::empty());
    reveal(Seq::filter);
}

/// Every survivor of a tick is on the screen and is one of the obstacles,
/// advanced; and where all obstacles were well-formed before, the survivors
/// are well-formed.
pub proof fn lemma_survivors_sound(obstacles: Seq<ObstacleView>)
    ensures
        forall|i: int|
            0 <= i < survivors(obstacles).len() ==> (#[trigger] survivors(obstacles)[i]).on_screen(),
        forall|o: ObstacleView|
            (#[trigger] survivors(obstacles).contains(o)) ==> exists|j: int|
                0 <= j < obstacles.len() && o == (#[trigger] obstacles[j]).advanced(),
        all_wf(obstacles) ==> all_wf(survivors(obstacles)),
    decreases obstacles.len(),
{
    if obstacles.len() == 0 {
        assert(obstacles =~= Seq::empty());
        lemma_survivors_empty();
    } else {
        let front = obstacles.drop_last();
        let last = obstacles.last();
        assert(obstacles =~= front.push(last));
        lemma_survivors_sound(front);
        lemma_survivors_push(front, last);
        assert forall|o: ObstacleView| (#[trigger] survivors(obstacles).contains(o)) implies exists|
            j: int,
        | 0 <= j < obstacles.len() && o == (#[trigger] obstacles[j]).advanced() by {
            let k = choose|k: int| 0 <= k < survivors(obstacles).len() && survivors(obstacles)[k] == o;
            if k < survivors(front).len() {
                assert(survivors(front).contains(survivors(front)[k]));
                let j = choose|j: int| 0 <= j < front.len() && o == (#[trigger] front[j]).advanced();
                assert(obstacles[j] == front[j]);
            } else {
                assert(o == obstacles[obstacles.len() - 1].advanced());
            }
        }
        if all_wf(obstacles) {
            assert(last.wf());
            assert forall|i: int| 0 <= i < front.len() implies (#[trigger] front[i]).wf() by {
                assert(obstacles[i].wf());
            }
        }
    }
}

/// Every obstacle that is on the screen once advanced is among the
/// survivors of a tick.
pub proof fn lemma_survivors_keep(obstacles: Seq<ObstacleView>, j: int)
    requires
        0 <= j < obstacles.len(),
        obstacles[j].advanced().on_screen(),
    ensures
        survivors(obstacles).contains(obstacles[j].advanced()),
    decreases obstacles.len(),
{
    let front = obstacles.drop_last();
    let last = obstacles.last();
    assert(obstacles =~= front.push(last));
    lemma_survivors_push(front, last);
    if j < front.len() {
        lemma_survivors_keep(front, j);
        let k = choose|k: int|
            0 <= k < survivors(front).len() && survivors(front)[k] == front[j].advanced();
        assert(survivors(obstacles)[k] == obstacles[j].advanced());
    } else {
        assert(survivors(obstacles).last() == last.advanced());
    }
}

/// An obstacle.
#[derive(Clone, Copy, Debug, PartialEq, Eq)]
pub struct Obstacle {
    rect: Rect,
    speed: i64,
}

impl View for Obstacle {
    type V = ObstacleView;

    closed spec fn view(&self) -> ObstacleView {
        ObstacleView { rect: self.rect@, speed: self.speed as int }
    }
}

/// A row of obstacles over the mathematical integers.
pub open spec fn views(obstacles: Seq<Obstacle>) -> Seq<ObstacleView> {
    obstacles.map_values(|o: Obstacle| o@)
}

/// Draws the height of a new obstacle at random.
pub fn draw_height() -> (height: i64)
    ensures
        valid_height(height as int),
{
    random_in_range(MIN_OBSTACLE_HEIGHT, MAX_OBSTACLE_HEIGHT)
}

impl Obstacle {
    /// Every obstacle has its shape and is on the screen.
    #[verifier::type_invariant]
    pub open spec fn well_formed(self) -> bool {
        self@.wf()
    }

    /// A new obstacle of the given height, at the right edge of the screen.
    pub fn spawn(height: i64) -> (o: Obstacle)
        requires
            valid_height(height as int),
        ensures
            o@ == ObstacleView::spawned(height as int),
    {
        Obstacle {
            rect: Rect {
                x: SCREEN_WIDTH,
                y: SCREEN_HEIGHT - height,
                w: OBSTACLE_WIDTH,
                h: height,
            },
            speed: OBSTACLE_SPEED,
        }
    }

    /// The obstacle one tick later, moved left by its speed; or nothing, if
    /// that takes it off the screen.
    pub fn advance(self) -> (moved: Option<Obstacle>)
        ensures
            match moved {
                Some(o) => self@.advanced().on_screen() && o@ == self@.advanced(),
                None => !self@.advanced().on_screen(),
            },
    {
        proof {
            use_type_invariant(&self);
        }
        let x = self.rect.x - self.speed;
        if x > 0 {
            Some(
                Obstacle {
                    rect: Rect { x, y: self.rect.y, w: self.rect.w, h: self.rect.h },
                    speed: self.speed,
                },
            )
        } else {
            None
        }
    }

    /// The obstacle's rectangle.
    pub fn rect(&self) -> (r: Rect)
        ensures
            r@ == self@.rect,
            self@.wf(),
    {
        proof {
            use_type_invariant(self);
        }
        self.rect
    }

    /// The distance that the obstacle travels left per tick, in steps.
    pub fn speed(&self) -> (s: i64)
        ensures
            s == self@.speed,
            self@.wf(),
    {
        proof {
            use_type_invariant(self);
        }
        self.speed
    }
}

/// Advances every obstacle of the row by one tick and keeps, in their order,
/// those that are still on the screen.
pub fn advance_and_cull(obstacles: &Vec<Obstacle>) -> (kept: Vec<Obstacle>)
    ensures
        views(kept@) == survivors(views(obstacles@)),
        all_wf(views(kept@)),
{
    let ghost row = views(obstacles@);
    let mut kept: Vec<Obstacle> = Vec::new();
    let mut i: usize = 0;
    proof {
        assert(row.take(0) =~= Seq::empty());
        assert(views(kept@) =~= Seq::empty());
        lemma_survivors_empty();
    }
    while i < obstacles.len()
        invariant
            i <= obstacles.len(),
            row == views(obstacles@),
            views(kept@) == survivors(row.take(i as int)),
            all_wf(views(kept@)),
        decreases obstacles.len() - i,
    {
        let obstacle = obstacles[i];
        proof {
            assert(row[i as int] == obstacle@);
            assert(row.take(i + 1) =~= row.take(i as int).push(obstacle@));
            lemma_survivors_push(row.take(i as int), obstacle@);
        }
        match obstacle.advance() {
            Some(moved) => {
                proof {
                    use_type_invariant(&moved);
                    assert(views(kept@.push(moved)) =~= views(kept@).push(moved@));
                }
                kept.push(moved);
            },
            None => {},
        }
        i += 1;
    }
    proof {
        assert(row.take(i as int) =~= row);
    }
    kept
}

} // verus!
