use crate::geometry::{point_in_bounds, Point, Velocity, Viewport};
use crate::motion::{
    clamp_i64, drift_speed_ok, fade, faded, shift, FALL_SPEED, NUDGE, OPAQUE,
};
use vstd::prelude::*;

verus! {

/// The two states of a word on screen.
#[derive(Clone, Copy, Debug, PartialEq, Eq, Structural)]
pub enum WordState {
    /// The word the player is typing; it descends at constant speed.
    Falling,
    /// A completed word, drifting along a fixed vector while it fades.
    FloatingAway(Velocity),
}

/// What a word entity is, as a mathematical value.
pub struct EntityView {
    pub id: u64,
    pub word: Seq<char>,
    /// How many characters of `word` have been typed.
    pub typed: nat,
    pub state: WordState,
    pub position: Point,
    /// Opacity in millionths.
    pub alpha: nat,
}

impl EntityView {
    /// The characters typed so far.
    pub open spec fn matched(self) -> Seq<char> {
        self.word.take(self.typed as int)
    }

    /// The characters still to type.
    pub open spec fn remaining(self) -> Seq<char> {
        self.word.skip(self.typed as int)
    }

    pub open spec fn is_falling(self) -> bool {
        self.state is Falling
    }

    /// A falling word is opaque and not yet fully typed; a word that floats
    /// away is fully typed and drifts at the drift speed.
    pub open spec fn wf(self) -> bool {
        &&& self.typed <= self.word.len()
        &&& self.alpha <= OPAQUE
        &&& match self.state {
            WordState::Falling => self.alpha == OPAQUE && self.typed < self.word.len(),
            WordState::FloatingAway(v) => self.typed == self.word.len() && drift_speed_ok(v),
        }
    }

    /// The entity after one frame of `dt` milliseconds.
    pub open spec fn moved(self, dt: int) -> EntityView {
        match self.state {
            WordState::Falling => EntityView {
                position: Point {
                    x: self.position.x,
                    y: clamp_i64(self.position.y - FALL_SPEED * dt) as i64,
                },
                ..self
            },
            WordState::FloatingAway(v) => EntityView {
                position: Point {
                    x: clamp_i64(self.position.x + v.dx * dt) as i64,
                    y: clamp_i64(self.position.y + v.dy * dt) as i64,
                },
                alpha: faded(self.alpha),
                ..self
            },
        }
    }

    /// A word that floats away is kept while it is inside the viewport or
    /// still visible; a falling word is always kept.
    pub open spec fn kept(self, vp: Viewport) -> bool {
        self.is_falling() || point_in_bounds(vp, self.position) || self.alpha > 0
    }
}

/// A word on screen.
pub struct WordEntity {
    id: u64,
    word: String,
    typed: usize,
    state: WordState,
    position: Point,
    alpha: u32,
}

impl View for WordEntity {
    type V = EntityView;

    closed spec fn view(&self) -> EntityView {
        EntityView {
            id: self.id,
            word: self.word@,
            typed: self.typed as nat,
            state: self.state,
            position: self.position,
            alpha: self.alpha as nat,
        }
    }
}

impl WordEntity {
    /// A new falling word with nothing typed.
    pub fn new(id: u64, word: String, position: Point) -> (r: WordEntity)
        requires
            word@.len() > 0,
        ensures
            r@ == (EntityView {
                id,
                word: word@,
                typed: 0,
                state: WordState::Falling,
                position,
                alpha: OPAQUE as nat,
            }),
            r@.wf(),
    {
        WordEntity { id, word, typed: 0, state: WordState::Falling, position, alpha: OPAQUE }
    }

    pub fn id(&self) -> (r: u64)
        ensures
            r == self@.id,
    {
        self.id
    }

    pub fn word(&self) -> (r: &str)
        ensures
            r@ == self@.word,
    {
        self.word.as_str()
    }

    pub fn state(&self) -> (r: WordState)
        ensures
            r == self@.state,
    {
        self.state
    }

    pub fn position(&self) -> (r: Point)
        ensures
            r == self@.position,
    {
        self.position
    }

    pub fn alpha(&self) -> (r: u32)
        ensures
            r == self@.alpha,
    {
        self.alpha
    }

    /// The characters typed so far.
    pub fn matched_text(&self) -> (r: &str)
        requires
            self@.wf(),
        ensures
            r@ == self@.matched(),
    {
        self.word.as_str().substring_char(0, self.typed)
    }

    /// The characters still to type.
    pub fn remaining_text(&self) -> (r: &str)
        requires
            self@.wf(),
        ensures
            r@ == self@.remaining(),
    {
        let n = self.word.as_str().unicode_len();
        self.word.as_str().substring_char(self.typed, n)
    }

    /// The next character to type, if any.
    pub fn next_char(&self) -> (r: Option<char>)
        requires
            self@.typed <= self@.word.len(),
        ensures
            r is None <==> self@.remaining().len() == 0,
            r matches Some(c) ==> c == self@.remaining()[0],
    {
        let n = self.word.as_str().unicode_len();
        if self.typed < n {
            Some(self.word.as_str().get_char(self.typed))
        } else {
            None
        }
    }

    /// Moves the next character from the remaining text to the matched text
    /// and nudges the word upwards.
    pub(crate) fn advance_typed(&mut self)
        requires
            old(self)@.wf(),
            old(self)@.is_falling(),
        ensures
            final(self)@ == (EntityView {
                typed: old(self)@.typed + 1,
                position: Point {
                    x: old(self)@.position.x,
                    y: clamp_i64(old(self)@.position.y + NUDGE) as i64,
                },
                ..old(self)@
            }),
    {
        let n = self.word.as_str().unicode_len();
        assert(self.typed < n);
        self.typed = self.typed + 1;
        self.position = Point { x: self.position.x, y: shift(self.position.y, NUDGE) };
    }

    /// Turns a fully typed falling word into one that floats away along `v`.
    pub(crate) fn release(&mut self, v: Velocity)
        ensures
            final(self)@ == (EntityView { state: WordState::FloatingAway(v), ..old(self)@ }),
    {
        self.state = WordState::FloatingAway(v);
    }

    /// One frame of motion: a falling word descends, a word that floats away
    /// drifts and fades.
    pub fn step(&mut self, dt_ms: u32)
        requires
            old(self)@.wf(),
        ensures
            final(self)@ == old(self)@.moved(dt_ms as int),
            final(self)@.wf(),
    {
        match self.state {
            WordState::Falling => {
                let d = FALL_SPEED * dt_ms as i64;
                self.position = Point { x: self.position.x, y: shift(self.position.y, -d) };
            },
            WordState::FloatingAway(v) => {
                assert(-50_000 <= v.dx <= 50_000 && -50_000 <= v.dy <= 50_000) by (nonlinear_arith)
                    requires
                        v.dx * v.dx + v.dy * v.dy <= 50_000 * 50_000,
                ;
                assert(-50_000 * 0xffff_ffff <= v.dx * dt_ms <= 50_000 * 0xffff_ffff
                    && -50_000 * 0xffff_ffff <= v.dy * dt_ms <= 50_000 * 0xffff_ffff)
                    by (nonlinear_arith)
                    requires
                        -50_000 <= v.dx <= 50_000,
                        -50_000 <= v.dy <= 50_000,
                        0 <= dt_ms <= 0xffff_ffff,
                ;
                let dx = v.dx * dt_ms as i64;
                let dy = v.dy * dt_ms as i64;
                self.position = Point {
                    x: shift(self.position.x, dx),
                    y: shift(self.position.y, dy),
                };
                self.alpha = fade(self.alpha);
            },
        }
    }
}

} // verus!
