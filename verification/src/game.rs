//! Single-game Snake simulation: grid-bounded movement, wall and
//! self-collision detection, food consumption and placement, and a greedy
//! nearest-food heuristic for automated play.

use vstd::prelude::*;
use std::collections::VecDeque;

verus! {

/// A cell of the board, identified by its coordinates.
///
/// Used both for snake body segments and for the food position; two points
/// are equal exactly when their coordinates are.
#[derive(Clone, Copy, PartialEq, Eq, Structural, Debug)]
pub struct Point {
    pub x: i32,
    pub y: i32,
}

/// The four possible headings of the snake.
#[derive(Clone, Copy, PartialEq, Eq, Structural, Debug)]
pub enum Direction {
    Up,
    Down,
    Left,
    Right,
}

/// Why constructing a game can fail.
#[derive(Clone, Copy, PartialEq, Eq, Structural, Debug)]
pub enum GameError {
    /// A non-positive width or height was requested.
    InvalidDimensions,
    /// No free cell is left for the food: the snake covers the board.
    BoardFull,
}

/// How many random draws food placement tries before it falls back to
/// scanning the board for a free cell.
pub const SPAWN_ATTEMPTS: usize = 100;

/// The whole state of one Snake game.
///
/// The board is the half-open range `[0, width) x [0, height)`.  The snake
/// body is held head first: the head is the front of the deque, the tail the
/// back.  A well-formed game (see [`Game::wf`]) has a non-empty body of
/// pairwise-distinct in-bounds points, food on a free in-bounds cell, and a
/// score equal to the number of food items eaten so far, which is always one
/// less than the body length.
pub struct Game {
    /// Snake body, head at the front, tail at the back.
    pub snake: VecDeque<Point>,
    /// Current position of the food.
    pub food: Point,
    /// Current heading of the snake.
    pub direction: Direction,
    /// Number of food items eaten.
    pub score: u64,
    /// Whether the game has ended.
    pub game_over: bool,
    /// Board width; the x range is `[0, width)`.
    pub width: i32,
    /// Board height; the y range is `[0, height)`.
    pub height: i32,
}

/// The point one cell away from `p` in direction `d`.
///
/// The casts never truncate for the points this library moves from: every
/// in-bounds point has coordinates in `[0, i32::MAX)`, so one step in any
/// direction stays within `i32`.
pub open spec fn moved(p: Point, d: Direction) -> Point {
    match d {
        Direction::Up => Point { x: p.x, y: (p.y - 1) as i32 },
        Direction::Down => Point { x: p.x, y: (p.y + 1) as i32 },
        Direction::Left => Point { x: (p.x - 1) as i32, y: p.y },
        Direction::Right => Point { x: (p.x + 1) as i32, y: p.y },
    }
}

/// Position of `d` in the order in which the heuristic examines candidate
/// moves: Up, Down, Left, Right.
pub open spec fn dir_rank(d: Direction) -> int {
    match d {
        Direction::Up => 0,
        Direction::Down => 1,
        Direction::Left => 2,
        Direction::Right => 3,
    }
}

/// The squared Euclidean distance between two points.
pub open spec fn dist2(p: Point, q: Point) -> int {
    (p.x - q.x) * (p.x - q.x) + (p.y - q.y) * (p.y - q.y)
}

impl Game {
    /// Whether `p` lies on the board.
    pub open spec fn in_bounds(self, p: Point) -> bool {
        0 <= p.x < self.width && 0 <= p.y < self.height
    }

    /// The head of the snake (meaningful only for a non-empty body).
    pub open spec fn head(self) -> Point {
        self.snake@[0]
    }

    /// The cell the head would move to on the next step.
    pub open spec fn next_head(self) -> Point {
        moved(self.head(), self.direction)
    }

    /// Whether the next step neither leaves the board nor hits the body.
    pub open spec fn can_advance(self) -> bool {
        self.in_bounds(self.next_head()) && !self.snake@.contains(self.next_head())
    }

    /// Whether the food lies on a free in-bounds cell.
    pub open spec fn food_free(self) -> bool {
        self.in_bounds(self.food) && !self.snake@.contains(self.food)
    }

    /// Well-formedness of a game state.
    ///
    /// Established by [`Game::new`] and preserved by every operation:
    /// positive dimensions; a non-empty body of pairwise-distinct, in-bounds
    /// points; food on a free in-bounds cell; and a score equal to the body
    /// length minus one (the snake starts with one segment and grows by one
    /// per food item eaten).
    pub open spec fn wf(self) -> bool {
        &&& self.width > 0
        &&& self.height > 0
        &&& self.snake@.len() >= 1
        &&& forall|i: int| 0 <= i < self.snake@.len() ==> self.in_bounds(#[trigger] self.snake@[i])
        &&& forall|i: int, j: int|
            0 <= i < j < self.snake@.len() ==> self.snake@[i] != self.snake@[j]
        &&& (!self.game_over ==> self.food_free())
        &&& self.score == self.snake@.len() - 1
    }
}

/// One step of the simulation, as a relation between the state before and
/// the state after a call to [`Game::update`].
///
/// When the game is already over, nothing changes.  When the next cell is
/// off the board or on the body, only the terminal flag is raised.  When the
/// next cell holds the food, the snake grows by its new head, the score goes
/// up by one and fresh food lands on a free cell (which cell is random, so
/// the relation fixes no more than that).  Otherwise the snake advances:
/// the new head is prepended and the tail cell is dropped.
pub open spec fn tick_rel(pre: Game, post: Game) -> bool {
    if pre.game_over {
        post == pre
    } else if !pre.can_advance() {
        &&& post.snake == pre.snake
        &&& post.food == pre.food
        &&& post.direction == pre.direction
        &&& post.score == pre.score
        &&& post.game_over == true
        &&& post.width == pre.width
        &&& post.height == pre.height
    } else if pre.next_head() == pre.food {
        &&& post.snake@ == seq![pre.next_head()] + pre.snake@
        &&& post.direction == pre.direction
        &&& post.score == pre.score + 1
        &&& post.width == pre.width
        &&& post.height == pre.height
        &&& if exists|p: Point| post.in_bounds(p) && !post.snake@.contains(p) {
                post.game_over == false && post.food_free()
            } else {
                post.game_over == true && post.food == pre.food
            }
    } else {
        &&& post.snake@ == (seq![pre.next_head()] + pre.snake@).drop_last()
        &&& post.food == pre.food
        &&& post.direction == pre.direction
        &&& post.score == pre.score
        &&& post.game_over == false
        &&& post.width == pre.width
        &&& post.height == pre.height
    }
}

/// The direction examined `k`-th by the heuristic, in the order Up, Down,
/// Left, Right.
pub open spec fn dir_at(k: int) -> Direction {
    if k == 0 {
        Direction::Up
    } else if k == 1 {
        Direction::Down
    } else if k == 2 {
        Direction::Left
    } else {
        Direction::Right
    }
}

/// Whether stepping from the head in direction `d` stays on the board and
/// off the snake body.
pub open spec fn valid_move(g: Game, d: Direction) -> bool {
    &&& g.in_bounds(moved(g.head(), d))
    &&& !g.snake@.contains(moved(g.head(), d))
}

/// Whether the heuristic prefers direction `a` over direction `b` (or would
/// keep `a` when both are at hand): `a`'s next cell is strictly closer to
/// the food, or exactly as close and `a` is examined no later than `b`.
pub open spec fn closer_or_tied(g: Game, a: Direction, b: Direction) -> bool {
    ||| dist2(moved(g.head(), a), g.food) < dist2(moved(g.head(), b), g.food)
    ||| (dist2(moved(g.head(), a), g.food) == dist2(moved(g.head(), b), g.food) && dir_rank(a)
        <= dir_rank(b))
}

/// What the heuristic picks: on a finished game, or when no direction is
/// valid, the heading stays as it is; otherwise the picked direction is a
/// valid one that no valid direction beats under [`closer_or_tied`], which
/// pins the choice exactly (least squared distance, earliest examined on a
/// tie).
pub open spec fn ai_choice_ok(g: Game, d: Direction) -> bool {
    if g.game_over {
        d == g.direction
    } else if exists|c: Direction| valid_move(g, c) {
        valid_move(g, d) && forall|c: Direction| valid_move(g, c) ==> closer_or_tied(g, d, c)
    } else {
        d == g.direction
    }
}

/// One heuristic move selection, as a relation between the state before
/// and after a call to [`Game::ai_move`]: only the heading changes, and it
/// changes to what [`ai_choice_ok`] describes.
pub open spec fn ai_rel(pre: Game, post: Game) -> bool {
    &&& post.snake == pre.snake
    &&& post.food == pre.food
    &&& post.score == pre.score
    &&& post.game_over == pre.game_over
    &&& post.width == pre.width
    &&& post.height == pre.height
    &&& ai_choice_ok(pre, post.direction)
}

/// One heading replacement, as [`Game::set_direction`] performs it: every
/// field but the heading stays; the heading may become anything.
pub open spec fn set_dir_rel(pre: Game, post: Game) -> bool {
    &&& post.snake == pre.snake
    &&& post.food == pre.food
    &&& post.score == pre.score
    &&& post.game_over == pre.game_over
    &&& post.width == pre.width
    &&& post.height == pre.height
}

/// Any one interaction with a game: a simulation step, a heuristic move
/// selection, or a heading replacement.
pub open spec fn step_rel(pre: Game, post: Game) -> bool {
    ||| tick_rel(pre, post)
    ||| ai_rel(pre, post)
    ||| set_dir_rel(pre, post)
}

/// Relies on rand's `random_range` on the range `0..bound`: the drawn value
/// lies in that range.  Nothing more is promised of a random draw.
#[verifier::external_body]
fn random_below(bound: i32) -> (r: i32)
    requires
        bound > 0,
    ensures
        0 <= r < bound,
{
    rand::random_range(0..bound)
}

/// Whether `v` holds a point equal to `p`.
///
/// The second postcondition only records that the deque's length is a
/// `usize`, which callers need for overflow reasoning.
fn deque_contains_point(v: &VecDeque<Point>, p: Point) -> (b: bool)
    ensures
        b == v@.contains(p),
        v@.len() <= usize::MAX,
{
    let n: usize = v.len();
    let mut i: usize = 0;
    while i < n
        invariant
            n == v@.len(),
            0 <= i <= n,
            forall|j: int| 0 <= j < i ==> v@[j] != p,
        decreases n - i,
    {
        if v[i] == p {
            return true;
        }
        i = i + 1;
    }
    false
}

/// An advancing step (one that neither leaves the board nor hits the body)
/// preserves well-formedness, whether or not food was eaten.
proof fn lemma_advanced_wf(pre: Game, post: Game)
    requires
        pre.wf(),
        !pre.game_over,
        pre.can_advance(),
        post.width == pre.width,
        post.height == pre.height,
        pre.next_head() == pre.food ==> {
            &&& post.snake@ == seq![pre.next_head()] + pre.snake@
            &&& post.score == pre.score + 1
            &&& (!post.game_over ==> post.food_free())
        },
        pre.next_head() != pre.food ==> {
            &&& post.snake@ == (seq![pre.next_head()] + pre.snake@).drop_last()
            &&& post.score == pre.score
            &&& post.food == pre.food
            &&& post.game_over == false
        },
    ensures
        post.wf(),
{
    let nh = pre.next_head();
    let s = pre.snake@;
    let t = seq![nh] + s;
    let u = post.snake@;
    let m = u.len() as int;
    assert forall|k: int| 0 <= k < s.len() implies s[k] != nh by {
        if s[k] == nh {
            assert(s.contains(nh));
        }
    }
    assert forall|k: int| 0 <= k < s.len() implies s[k] != pre.food by {
        if s[k] == pre.food {
            assert(s.contains(pre.food));
        }
    }
    assert(forall|i: int| 0 <= i < m ==> u[i] == t[i]);
    assert forall|i: int| 0 <= i < m implies post.in_bounds(#[trigger] u[i]) by {
        if i > 0 {
            assert(t[i] == s[i - 1]);
        }
    }
    assert forall|i: int, j: int| 0 <= i < j < m implies u[i] != u[j] by {
        assert(t[j] == s[j - 1]);
        if i > 0 {
            assert(t[i] == s[i - 1]);
        }
    }
    if pre.next_head() != pre.food {
        assert(!u.contains(post.food)) by {
            if u.contains(post.food) {
                let i = choose|i: int| 0 <= i < u.len() && u[i] == post.food;
                if i > 0 {
                    assert(t[i] == s[i - 1]);
                }
            }
        }
    }
}

/// The point one cell away from `p` in direction `d`, computed on machine
/// integers.
fn move_point(p: Point, d: Direction) -> (q: Point)
    requires
        i32::MIN < p.x < i32::MAX,
        i32::MIN < p.y < i32::MAX,
    ensures
        q == moved(p, d),
{
    match d {
        Direction::Up => Point { x: p.x, y: p.y - 1 },
        Direction::Down => Point { x: p.x, y: p.y + 1 },
        Direction::Left => Point { x: p.x - 1, y: p.y },
        Direction::Right => Point { x: p.x + 1, y: p.y },
    }
}

/// The direction examined `k`-th by the heuristic, as executable code.
fn dir_of(k: usize) -> (d: Direction)
    requires
        k < 4,
    ensures
        d == dir_at(k as int),
{
    if k == 0 {
        Direction::Up
    } else if k == 1 {
        Direction::Down
    } else if k == 2 {
        Direction::Left
    } else {
        Direction::Right
    }
}

impl Game {
    /// Creates a new game on a `width` by `height` board.
    ///
    /// Both dimensions must be positive; otherwise the request is rejected
    /// with [`GameError::InvalidDimensions`].  The snake starts as a single
    /// segment at the center of the board, heading right, with score zero,
    /// and food is placed on some free cell.  On a one-cell board the
    /// single segment already covers every cell, no food fits, and the
    /// request is rejected with [`GameError::BoardFull`].
    pub fn new(width: i32, height: i32) -> (r: Result<Game, GameError>)
        ensures
            r is Ok <==> width > 0 && height > 0 && (width > 1 || height > 1),
            width <= 0 || height <= 0 ==> r == Err::<Game, GameError>(
                GameError::InvalidDimensions,
            ),
            width > 0 && height > 0 && width == 1 && height == 1 ==> r == Err::<
                Game,
                GameError,
            >(GameError::BoardFull),
            r matches Ok(g) ==> {
                &&& g.wf()
                &&& g.width == width
                &&& g.height == height
                &&& g.snake@ == seq![(Point { x: (width / 2) as i32, y: (height / 2) as i32 })]
                &&& g.direction == Direction::Right
                &&& g.score == 0
                &&& !g.game_over
                &&& g.food != (Point { x: (width / 2) as i32, y: (height / 2) as i32 })
            },
    {
        if width <= 0 || height <= 0 {
            return Err(GameError::InvalidDimensions);
        }
        let center = Point { x: width / 2, y: height / 2 };
        let mut game = Game {
            snake: VecDeque::new(),
            food: Point { x: 0, y: 0 },
            direction: Direction::Right,
            score: 0,
            game_over: false,
            width,
            height,
        };
        game.snake.push_back(center);
        proof {
            assert(game.snake@ =~= seq![center]);
            assert(0 <= width / 2 && width / 2 < width);
            assert(0 <= height / 2 && height / 2 < height);
        }
        let ghost mid = game;
        match game.spawn_food() {
            Ok(()) => {
                proof {
                    assert(game.snake@[0] == center);
                    assert(game.food != center) by {
                        if game.food == center {
                            assert(game.snake@.contains(center));
                        }
                    }
                    assert(width > 1 || height > 1) by {
                        if width == 1 && height == 1 {
                            let p = choose|p: Point|
                                mid.in_bounds(p) && !mid.snake@.contains(p);
                            assert(p.x == 0 && p.y == 0);
                            assert(p == center);
                            assert(mid.snake@.contains(center));
                        }
                    }
                }
                Ok(game)
            },
            Err(_) => {
                proof {
                    assert(width == 1 && height == 1) by {
                        if width > 1 || height > 1 {
                            let qx: i32 = if center.x == 0 { 1i32 } else { 0i32 };
                            let qy: i32 = if center.y == 0 && width == 1 { 1i32 } else { 0i32 };
                            let q = (Point {
                                x: if width > 1 { qx } else { center.x },
                                y: if width > 1 { center.y } else { qy },
                            });
                            assert(q != center);
                            assert(mid.in_bounds(q));
                            assert(!mid.snake@.contains(q)) by {
                                if mid.snake@.contains(q) {
                                    let i = choose|i: int|
                                        0 <= i < mid.snake@.len() && mid.snake@[i] == q;
                                    assert(mid.snake@[i] == center);
                                }
                            }
                        }
                    }
                }
                Err(GameError::BoardFull)
            },
        }
    }

    /// Advances the simulation by exactly one step, as [`tick_rel`]
    /// describes: a no-op once the game is over; otherwise the head moves
    /// one cell along the current heading, the game ends on a wall or body
    /// hit, the snake grows (and the score counts up) on a food hit, and it
    /// simply advances otherwise.
    pub fn update(&mut self)
        requires
            old(self).wf(),
        ensures
            final(self).wf(),
            tick_rel(*old(self), *final(self)),
            old(self).game_over ==> *final(self) == *old(self),
    {
        if self.game_over {
            return;
        }

        let head: Point = self.snake[0];
        proof {
            assert(old(self).in_bounds(old(self).snake@[0]));
        }
        // Calculate the new head position from the current direction.
        let new_head = move_point(head, self.direction);
        assert(new_head == old(self).next_head());

        // Check collision with the walls; the out-of-bounds head is never
        // stored.
        if new_head.x < 0 || new_head.x >= self.width || new_head.y < 0
            || new_head.y >= self.height {
            self.game_over = true;
            return;
        }

        // Check collision with the body, the current tail included.
        if deque_contains_point(&self.snake, new_head) {
            self.game_over = true;
            return;
        }

        let ghost pre = *old(self);
        let ghost s = self.snake@;

        // Advance: the new head goes to the front.
        self.snake.push_front(new_head);

        if new_head.x == self.food.x && new_head.y == self.food.y {
            // Food eaten: grow (the tail stays this step) and re-place the
            // food.  When the grown body covers the whole board, no food
            // fits any more and the game is complete.
            self.score = self.score + 1;
            let ghost mid = *self;
            let placed = self.spawn_food();
            if placed.is_err() {
                self.game_over = true;
            }
            proof {
                assert(self.snake@ == seq![pre.next_head()] + s);
                if placed is Err {
                    assert(!(exists|p: Point| self.in_bounds(p) && !self.snake@.contains(p)))
                        by {
                        if exists|p: Point| self.in_bounds(p) && !self.snake@.contains(p) {
                            let p = choose|p: Point|
                                self.in_bounds(p) && !self.snake@.contains(p);
                            assert(mid.in_bounds(p) && !mid.snake@.contains(p));
                        }
                    }
                }
                lemma_advanced_wf(pre, *self);
            }
        } else {
            // No food: the tail cell is given up, keeping the length.
            self.snake.pop_back();
            proof {
                assert(self.snake@ =~= (seq![pre.next_head()] + s).drop_last());
                assert(self.food != pre.next_head());
                lemma_advanced_wf(pre, *self);
            }
        }
    }

    /// Places the food on a free cell; nothing else changes.
    ///
    /// Cells are drawn at random and rejected while they fall on the snake
    /// body, as many as [`SPAWN_ATTEMPTS`] times; if every draw was
    /// rejected, the board is scanned for its first free cell instead, so
    /// the call succeeds exactly when some free cell exists.  When the body
    /// covers the whole board, no food can be placed and the call fails
    /// closed with [`GameError::BoardFull`], leaving the food where it was.
    pub fn spawn_food(&mut self) -> (r: Result<(), GameError>)
        requires
            old(self).width > 0,
            old(self).height > 0,
        ensures
            final(self).snake == old(self).snake,
            final(self).direction == old(self).direction,
            final(self).score == old(self).score,
            final(self).game_over == old(self).game_over,
            final(self).width == old(self).width,
            final(self).height == old(self).height,
            r is Ok <==> exists|p: Point|
                old(self).in_bounds(p) && !old(self).snake@.contains(p),
            r is Ok ==> final(self).food_free(),
            r is Err ==> final(self).food == old(self).food && r == Err::<(), GameError>(
                GameError::BoardFull,
            ),
    {
        let mut attempt: usize = 0;
        while attempt < SPAWN_ATTEMPTS
            invariant
                self.snake == old(self).snake,
                self.food == old(self).food,
                self.direction == old(self).direction,
                self.score == old(self).score,
                self.game_over == old(self).game_over,
                self.width == old(self).width,
                self.height == old(self).height,
                self.width > 0,
                self.height > 0,
            decreases SPAWN_ATTEMPTS - attempt,
        {
            let food = Point { x: random_below(self.width), y: random_below(self.height) };
            if !deque_contains_point(&self.snake, food) {
                proof {
                    assert(old(self).in_bounds(food) && !old(self).snake@.contains(food));
                }
                self.food = food;
                return Ok(());
            }
            attempt = attempt + 1;
        }
        // Every draw fell on the body: place the food on the first free
        // cell instead, in column order.
        let mut x: i32 = 0;
        while x < self.width
            invariant
                self.snake == old(self).snake,
                self.food == old(self).food,
                self.direction == old(self).direction,
                self.score == old(self).score,
                self.game_over == old(self).game_over,
                self.width == old(self).width,
                self.height == old(self).height,
                self.width > 0,
                self.height > 0,
                0 <= x <= self.width,
                forall|p: Point|
                    0 <= p.x < x && 0 <= p.y < self.height ==> self.snake@.contains(p),
            decreases self.width - x,
        {
            let mut y: i32 = 0;
            while y < self.height
                invariant
                    self.snake == old(self).snake,
                    self.food == old(self).food,
                    self.direction == old(self).direction,
                    self.score == old(self).score,
                    self.game_over == old(self).game_over,
                    self.width == old(self).width,
                    self.height == old(self).height,
                    self.width > 0,
                    self.height > 0,
                    0 <= x < self.width,
                    0 <= y <= self.height,
                    forall|p: Point|
                        0 <= p.x < x && 0 <= p.y < self.height ==> self.snake@.contains(p),
                    forall|p: Point| p.x == x && 0 <= p.y < y ==> self.snake@.contains(p),
                decreases self.height - y,
            {
                let candidate = Point { x, y };
                if !deque_contains_point(&self.snake, candidate) {
                    proof {
                        assert(old(self).in_bounds(candidate) && !old(self).snake@.contains(
                            candidate,
                        ));
                    }
                    self.food = candidate;
                    return Ok(());
                }
                proof {
                    assert forall|p: Point|
                        p.x == x && 0 <= p.y < y + 1 implies self.snake@.contains(p) by {
                        if p.y == y {
                            assert(p == candidate);
                        }
                    }
                }
                y = y + 1;
            }
            x = x + 1;
        }
        // The body covers every cell of the board.
        proof {
            assert forall|p: Point|
                self.in_bounds(p) implies self.snake@.contains(p) by {}
        }
        Err(GameError::BoardFull)
    }

    /// Picks the next heading greedily, as [`ai_rel`] describes: among the
    /// four directions whose next cell stays on the board and off the body,
    /// the one whose next cell is closest to the food (by Euclidean
    /// distance; on a tie the direction examined first, in the order Up,
    /// Down, Left, Right) becomes the heading.  When the game is over or no
    /// direction qualifies, the heading is left alone.
    ///
    /// This only selects a direction; the caller advances the simulation
    /// with [`Game::update`] separately.
    pub fn ai_move(&mut self)
        requires
            old(self).wf(),
        ensures
            final(self).wf(),
            ai_rel(*old(self), *final(self)),
            old(self).game_over ==> *final(self) == *old(self),
    {
        if self.game_over {
            return;
        }

        let head: Point = self.snake[0];
        proof {
            assert(old(self).in_bounds(old(self).snake@[0]));
        }

        // Examine the four candidate moves in order, keeping the valid one
        // whose target cell is strictly closest to the food so far.
        let mut best: Option<Direction> = None;
        let mut best_d2: i64 = 0;
        let mut k: usize = 0;
        while k < 4
            invariant
                *self == *old(self),
                self.wf(),
                !self.game_over,
                head == self.head(),
                self.in_bounds(head),
                0 <= k <= 4,
                best is None ==> forall|j: int|
                    0 <= j < k ==> !valid_move(*self, #[trigger] dir_at(j)),
                best matches Some(bd) ==> {
                    &&& valid_move(*self, bd)
                    &&& 0 <= dir_rank(bd) < k
                    &&& best_d2 == dist2(moved(head, bd), self.food)
                    &&& forall|j: int|
                        0 <= j < k && valid_move(*self, #[trigger] dir_at(j))
                            ==> closer_or_tied(*self, bd, dir_at(j))
                },
            decreases 4 - k,
        {
            let d = dir_of(k);
            let np = move_point(head, d);
            let valid = np.x >= 0 && np.x < self.width && np.y >= 0 && np.y < self.height
                && !deque_contains_point(&self.snake, np);
            assert(valid == valid_move(*self, dir_at(k as int)));
            if valid {
                let dx: i64 = np.x as i64 - self.food.x as i64;
                let dy: i64 = np.y as i64 - self.food.y as i64;
                proof {
                    assert(0 <= dx * dx && dx * dx <= 0x3fffffff00000001) by (nonlinear_arith)
                        requires
                            -0x7fffffff <= dx <= 0x7fffffff,
                    ;
                    assert(0 <= dy * dy && dy * dy <= 0x3fffffff00000001) by (nonlinear_arith)
                        requires
                            -0x7fffffff <= dy <= 0x7fffffff,
                    ;
                }
                let d2: i64 = dx * dx + dy * dy;
                assert(d2 == dist2(np, self.food));
                if best.is_none() || d2 < best_d2 {
                    best = Some(d);
                    best_d2 = d2;
                }
            }
            k = k + 1;
        }

        proof {
            assert(forall|c: Direction| dir_at(#[trigger] dir_rank(c)) == c);
            assert(forall|c: Direction| 0 <= #[trigger] dir_rank(c) < 4);
        }
        match best {
            Some(d) => {
                proof {
                    assert(valid_move(*self, d));
                    assert forall|c: Direction|
                        valid_move(*old(self), c) implies closer_or_tied(
                        *old(self),
                        d,
                        c,
                    ) by {
                        assert(dir_at(dir_rank(c)) == c);
                    }
                }
                self.direction = d;
            },
            None => {
                proof {
                    assert(!(exists|c: Direction| valid_move(*old(self), c))) by {
                        if exists|c: Direction| valid_move(*old(self), c) {
                            let c = choose|c: Direction| valid_move(*old(self), c);
                            assert(dir_at(dir_rank(c)) == c);
                            assert(!valid_move(*old(self), dir_at(dir_rank(c))));
                        }
                    }
                }
            },
        }
    }

    /// Replaces the current heading with `d`; nothing else changes.
    ///
    /// No validation is performed: in particular a 180-degree reversal into
    /// the snake's own neck is accepted here, and the next [`Game::update`]
    /// will then end the game through its self-collision check.
    pub fn set_direction(&mut self, d: Direction)
        ensures
            final(self).direction == d,
            final(self).snake == old(self).snake,
            final(self).food == old(self).food,
            final(self).score == old(self).score,
            final(self).game_over == old(self).game_over,
            final(self).width == old(self).width,
            final(self).height == old(self).height,
    {
        self.direction = d;
    }

    /// Decides well-formedness at run time, returning exactly [`Game::wf`].
    ///
    /// A caller that assembles a state by hand rather than through
    /// [`Game::new`] can check it here before stepping it.
    pub fn is_well_formed(&self) -> (b: bool)
        ensures
            b == self.wf(),
    {
        if self.width <= 0 || self.height <= 0 {
            return false;
        }
        let n: usize = self.snake.len();
        if n == 0 {
            return false;
        }
        let mut i: usize = 0;
        while i < n
            invariant
                n == self.snake@.len(),
                0 <= i <= n,
                forall|t: int| 0 <= t < i ==> self.in_bounds(#[trigger] self.snake@[t]),
            decreases n - i,
        {
            let p = self.snake[i];
            if p.x < 0 || p.x >= self.width || p.y < 0 || p.y >= self.height {
                return false;
            }
            i = i + 1;
        }
        let mut a: usize = 0;
        while a < n
            invariant
                n == self.snake@.len(),
                0 <= a <= n,
                forall|u: int, v: int|
                    0 <= u < v < n && u < a ==> self.snake@[u] != self.snake@[v],
            decreases n - a,
        {
            let pa = self.snake[a];
            let mut b2: usize = a + 1;
            while b2 < n
                invariant
                    n == self.snake@.len(),
                    0 <= a < n,
                    pa == self.snake@[a as int],
                    a < b2 <= n,
                    forall|u: int, v: int|
                        0 <= u < v < n && u < a ==> self.snake@[u] != self.snake@[v],
                    forall|v: int| a < v < b2 ==> self.snake@[a as int] != self.snake@[v],
                decreases n - b2,
            {
                if pa == self.snake[b2] {
                    return false;
                }
                b2 = b2 + 1;
            }
            a = a + 1;
        }
        if !self.game_over {
            if self.food.x < 0 || self.food.x >= self.width || self.food.y < 0
                || self.food.y >= self.height {
                return false;
            }
            if deque_contains_point(&self.snake, self.food) {
                return false;
            }
        }
        if self.score != (n - 1) as u64 {
            return false;
        }
        true
    }
}

/// Terminal states are sticky for the simulation and the heuristic: once
/// the game is over, one simulation step or one heuristic move selection
/// leaves every field exactly as it was.
pub proof fn lemma_over_is_terminal(pre: Game, post: Game)
    requires
        pre.game_over,
        tick_rel(pre, post) || ai_rel(pre, post),
    ensures
        post == pre,
{
}

/// Terminal states are sticky over whole runs: along any sequence of
/// states linked by simulation steps and heuristic move selections that
/// begins in a terminal state, every state equals the first.
pub proof fn lemma_over_stays(trace: Seq<Game>)
    requires
        trace.len() > 0,
        trace[0].game_over,
        forall|i: int|
            0 <= i < trace.len() - 1 ==> tick_rel(#[trigger] trace[i], trace[i + 1]) || ai_rel(
                trace[i],
                trace[i + 1],
            ),
    ensures
        forall|i: int| 0 <= i < trace.len() ==> #[trigger] trace[i] == trace[0],
    decreases trace.len(),
{
    if trace.len() > 1 {
        let prefix = trace.drop_last();
        assert(forall|i: int| 0 <= i < prefix.len() ==> prefix[i] == trace[i]);
        lemma_over_stays(prefix);
        assert(trace[trace.len() - 2] == trace[0]);
        lemma_over_is_terminal(trace[trace.len() - 2], trace[trace.len() - 1]);
    }
}

/// One simulation step from a well-formed state reaches a well-formed
/// state.
pub proof fn lemma_tick_preserves_wf(pre: Game, post: Game)
    requires
        pre.wf(),
        tick_rel(pre, post),
    ensures
        post.wf(),
{
    if !pre.game_over && pre.can_advance() {
        lemma_advanced_wf(pre, post);
    }
}

/// Every state reached from a well-formed one by simulation steps,
/// heuristic move selections and heading replacements is well-formed: in
/// particular, while the game is not over, the body points are pairwise
/// distinct, they lie on the board, and so does the food, on a cell of its
/// own.
pub proof fn lemma_steps_preserve_wf(trace: Seq<Game>)
    requires
        trace.len() > 0,
        trace[0].wf(),
        forall|i: int| 0 <= i < trace.len() - 1 ==> step_rel(#[trigger] trace[i], trace[i + 1]),
    ensures
        forall|i: int| 0 <= i < trace.len() ==> (#[trigger] trace[i]).wf(),
    decreases trace.len(),
{
    if trace.len() > 1 {
        let prefix = trace.drop_last();
        assert(forall|i: int| 0 <= i < prefix.len() ==> prefix[i] == trace[i]);
        lemma_steps_preserve_wf(prefix);
        let a = trace[trace.len() - 2];
        let b = trace[trace.len() - 1];
        assert(a.wf());
        assert(step_rel(a, b));
        if tick_rel(a, b) {
            lemma_tick_preserves_wf(a, b);
        }
    }
}

/// Growth law: one simulation step either keeps the body length (no food
/// eaten) or grows it by exactly one and then also counts the score up by
/// exactly one; the length never decreases.
pub proof fn lemma_growth(pre: Game, post: Game)
    requires
        tick_rel(pre, post),
    ensures
        post.snake@.len() == pre.snake@.len() || (post.snake@.len() == pre.snake@.len() + 1
            && post.score == pre.score + 1),
        post.snake@.len() >= pre.snake@.len(),
{
}

} // verus!
