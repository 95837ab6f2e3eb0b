use crate::entity::{EntityView, WordEntity, WordState};
use crate::geometry::{point_in_bounds, Point, Viewport};
use crate::motion::{
    clamp_i64, component_ok, drift_from, drift_of, drift_speed_ok, faded, faded_after, COMPONENT_RANGE, NUDGE,
    OPAQUE,
};
use crate::random::uniform_sample;
use crate::score::{total_points, ScoreKeeper, WordCompleted};
use crate::word_bank::{WordBank, WordBankError};
use vstd::prelude::*;

verus! {

/// One key event of the input device.
#[derive(Clone, Copy, Debug, PartialEq, Eq, Structural)]
pub struct KeyEvent {
    /// `true` for a press, `false` for a release.
    pub pressed: bool,
    /// The character of a character key; `None` for any other key.
    pub character: Option<char>,
}

/// The state of a game, as a mathematical value.
pub struct GameView {
    pub level: nat,
    pub score: nat,
    /// The word being typed.
    pub active: EntityView,
    /// Completed words that float away, oldest first.
    pub drifting: Seq<EntityView>,
    /// The id the next word will get.
    pub next_id: nat,
}

/// Whether exactly one entity of `s` is falling.
pub open spec fn exactly_one_falling(s: Seq<EntityView>) -> bool {
    exists|i: int|
        0 <= i < s.len() && (#[trigger] s[i]).is_falling() && forall|j: int|
            0 <= j < s.len() && (#[trigger] s[j]).is_falling() ==> j == i
}

impl GameView {
    /// Every live entity: the drifting words, then the active word.
    pub open spec fn entities(self) -> Seq<EntityView> {
        self.drifting.push(self.active)
    }

    /// One entity falls, the others float away, all are well formed, and
    /// ids are unique: they rise along `drifting` and stay below the
    /// active word's id, which stays below `next_id`.
    pub open spec fn entities_wf(self) -> bool {
        &&& self.active.wf()
        &&& self.active.is_falling()
        &&& self.active.id < self.next_id
        &&& forall|i: int|
            0 <= i < self.drifting.len() ==> {
                &&& (#[trigger] self.drifting[i]).wf()
                &&& !self.drifting[i].is_falling()
                &&& self.drifting[i].id < self.active.id
            }
        &&& forall|i: int, j: int|
            0 <= i < j < self.drifting.len() ==> (#[trigger] self.drifting[i]).id
                < (#[trigger] self.drifting[j]).id
    }
}

/// `e` after one correctly typed character.
pub open spec fn typed_one(e: EntityView) -> EntityView {
    EntityView {
        typed: e.typed + 1,
        position: Point { x: e.position.x, y: clamp_i64(e.position.y + NUDGE) as i64 },
        ..e
    }
}

/// `e` is a fresh falling word of `vocabulary` with id `id`, at the top of `vp`.
pub open spec fn fresh_word(e: EntityView, id: nat, vocabulary: Seq<Seq<char>>, vp: Viewport) -> bool {
    &&& e.id == id
    &&& vocabulary.contains(e.word)
    &&& e.word.len() > 0
    &&& e.typed == 0
    &&& e.state == WordState::Falling
    &&& e.position == Point { x: 0, y: (vp.height / 2) as i64 }
    &&& e.alpha == OPAQUE
}

/// Drifting words after one frame of `dt` milliseconds: those kept are moved,
/// in order; the others are destroyed.
pub open spec fn advanced(s: Seq<EntityView>, dt: int, vp: Viewport) -> Seq<EntityView>
    decreases s.len(),
{
    if s.len() == 0 {
        s
    } else {
        let r = advanced(s.drop_last(), dt, vp);
        if s.last().kept(vp) {
            r.push(s.last().moved(dt))
        } else {
            r
        }
    }
}

/// Advancing keeps words well formed, floating away, with rising ids below
/// `bound`.
proof fn lemma_advanced_wf(s: Seq<EntityView>, dt: int, vp: Viewport, bound: u64)
    requires
        0 <= dt <= u32::MAX,
        forall|i: int|
            0 <= i < s.len() ==> (#[trigger] s[i]).wf() && !s[i].is_falling() && s[i].id < bound,
        forall|i: int, j: int| 0 <= i < j < s.len() ==> (#[trigger] s[i]).id < (#[trigger] s[j]).id,
    ensures
        ({
            let r = advanced(s, dt, vp);
            &&& r.len() <= s.len()
            &&& forall|i: int|
                0 <= i < r.len() ==> (#[trigger] r[i]).wf() && !r[i].is_falling() && r[i].id
                    < bound
            &&& forall|i: int, j: int|
                0 <= i < j < r.len() ==> (#[trigger] r[i]).id < (#[trigger] r[j]).id
        }),
    decreases s.len(),
{
    if s.len() > 0 {
        let t = s.drop_last();
        let last = s.last();
        lemma_advanced_wf(t, dt, vp, last.id);
        lemma_advanced_wf(t, dt, vp, bound);
        lemma_moved_wf(last, dt);
    }
}

/// Motion keeps an entity well formed and keeps its id and state.
proof fn lemma_moved_wf(e: EntityView, dt: int)
    requires
        e.wf(),
    ensures
        e.moved(dt).wf(),
        e.moved(dt).id == e.id,
        e.moved(dt).state == e.state,
{
}

/// A well-formed game holds exactly one falling word.
pub proof fn lemma_exactly_one_falling(g: GameView)
    requires
        g.entities_wf(),
    ensures
        exactly_one_falling(g.entities()),
{
    let s = g.entities();
    let n = g.drifting.len() as int;
    assert(s[n] == g.active);
    assert forall|j: int| 0 <= j < s.len() && (#[trigger] s[j]).is_falling() implies j == n by {
        if j < n {
            assert(s[j] == g.drifting[j]);
        }
    }
}

/// The character that event `k` types, if any: releases and keys without a
/// character type nothing.
pub open spec fn typed_by(k: KeyEvent) -> Option<char> {
    if k.pressed {
        k.character
    } else {
        None
    }
}

/// The characters typed by `keys`, in order.
pub open spec fn pressed_chars(keys: Seq<KeyEvent>) -> Seq<char>
    decreases keys.len(),
{
    if keys.len() == 0 {
        Seq::empty()
    } else {
        let cs = pressed_chars(keys.drop_last());
        match typed_by(keys.last()) {
            Some(c) => cs.push(c),
            None => cs,
        }
    }
}

/// The messages of an optional message.
pub open spec fn opt_seq(r: Option<WordCompleted>) -> Seq<WordCompleted> {
    match r {
        Some(m) => seq![m],
        None => Seq::empty(),
    }
}

/// Typing `c` takes game `o` to `f` and yields `r`. A character other than
/// the next one to type changes nothing. A matching one moves to the typed
/// text and nudges the word up. When that completes the word, the word
/// starts floating away along a drift vector, a completion message carries
/// its length, and a fresh word of `vocabulary` starts falling.
pub open spec fn typed_char(
    o: GameView,
    f: GameView,
    c: char,
    r: Option<WordCompleted>,
    vocabulary: Seq<Seq<char>>,
    vp: Viewport,
) -> bool {
    let e = o.active;
    if e.remaining()[0] != c {
        f == o && r is None
    } else if e.typed + 1 < e.word.len() {
        r is None && f == GameView { active: typed_one(e), ..o }
    } else {
        &&& r matches Some(m) && m.length == e.word.len()
        &&& f.level == o.level
        &&& f.score == o.score
        &&& f.next_id == o.next_id + 1
        &&& f.drifting.len() == o.drifting.len() + 1
        &&& f.drifting.drop_last() == o.drifting
        &&& f.drifting.last().state matches WordState::FloatingAway(v) && drift_speed_ok(v) && exists|
            cx: int,
            cy: int,
        | component_ok(cx) && component_ok(cy) && v == #[trigger] drift_of(cx, cy)
        &&& f.drifting.last() == EntityView { state: f.drifting.last().state, ..typed_one(e) }
        &&& fresh_word(f.active, o.next_id as nat, vocabulary, vp)
    }
}

/// The messages of a run of optional messages, in order.
pub open spec fn collected(outs: Seq<Option<WordCompleted>>) -> Seq<WordCompleted>
    decreases outs.len(),
{
    if outs.len() == 0 {
        Seq::empty()
    } else {
        collected(outs.drop_last()) + opt_seq(outs.last())
    }
}

/// `states[i]` goes to `states[i + 1]` by typing `cs[i]`, which yields `outs[i]`.
pub open spec fn typing_run(
    states: Seq<GameView>,
    cs: Seq<char>,
    outs: Seq<Option<WordCompleted>>,
    vocabulary: Seq<Seq<char>>,
    vp: Viewport,
) -> bool {
    &&& states.len() == cs.len() + 1
    &&& outs.len() == cs.len()
    &&& forall|i: int|
        0 <= i < cs.len() ==> #[trigger] typed_char(
            states[i],
            states[i + 1],
            cs[i],
            outs[i],
            vocabulary,
            vp,
        )
}

/// Typing the characters `cs` in order takes `o` to `f` and yields `msgs`.
pub open spec fn typed_chars(
    o: GameView,
    f: GameView,
    cs: Seq<char>,
    msgs: Seq<WordCompleted>,
    vocabulary: Seq<Seq<char>>,
    vp: Viewport,
) -> bool {
    exists|states: Seq<GameView>, outs: Seq<Option<WordCompleted>>|
        #[trigger] typing_run(states, cs, outs, vocabulary, vp) && states[0] == o && states.last()
            == f && collected(outs) == msgs
}

/// Typing a character other than the next one to type leaves the typed text,
/// the remaining text and the position of the active word, and the whole
/// game, unchanged.
pub proof fn lemma_mismatch_changes_nothing(
    o: GameView,
    f: GameView,
    c: char,
    r: Option<WordCompleted>,
    vocabulary: Seq<Seq<char>>,
    vp: Viewport,
)
    requires
        o.entities_wf(),
        c != o.active.remaining()[0],
        typed_char(o, f, c, r, vocabulary, vp),
    ensures
        f.active.matched() == o.active.matched(),
        f.active.remaining() == o.active.remaining(),
        f.active.position == o.active.position,
        f == o,
        r is None,
{
}

/// While the characters of the active word are typed one by one, the word
/// keeps its text and state and nothing is completed.
proof fn lemma_run_prefix(
    states: Seq<GameView>,
    cs: Seq<char>,
    outs: Seq<Option<WordCompleted>>,
    vocabulary: Seq<Seq<char>>,
    vp: Viewport,
    k: int,
)
    requires
        typing_run(states, cs, outs, vocabulary, vp),
        states[0].entities_wf(),
        cs == states[0].active.remaining(),
        0 <= k < cs.len(),
    ensures
        states[k].active == (EntityView {
            typed: states[0].active.typed + k as nat,
            position: states[k].active.position,
            ..states[0].active
        }),
        states[k].drifting == states[0].drifting,
        states[k].level == states[0].level,
        states[k].score == states[0].score,
        states[k].next_id == states[0].next_id,
        collected(outs.take(k)) == Seq::<WordCompleted>::empty(),
    decreases k,
{
    if k > 0 {
        lemma_run_prefix(states, cs, outs, vocabulary, vp, k - 1);
        let i = k - 1;
        assert(typed_char(states[i], states[i + 1], cs[i], outs[i], vocabulary, vp));
        let e = states[k - 1].active;
        assert(e.remaining()[0] == cs[k - 1]);
        assert(outs.take(k).drop_last() =~= outs.take(k - 1));
    } else {
        assert(outs.take(0) =~= Seq::<Option<WordCompleted>>::empty());
    }
}

/// Typing exactly the remaining characters of the active word completes it:
/// its remaining text becomes empty, it floats away along a drift vector of
/// speed in `[DRIFT_SPEED_MIN, DRIFT_SPEED]`, one completion message carries
/// its length, and exactly one word, a fresh one, is falling afterwards.
pub proof fn lemma_typing_whole_word(
    o: GameView,
    f: GameView,
    msgs: Seq<WordCompleted>,
    vocabulary: Seq<Seq<char>>,
    vp: Viewport,
)
    requires
        o.entities_wf(),
        typed_chars(o, f, o.active.remaining(), msgs, vocabulary, vp),
    ensures
        msgs.len() == 1,
        msgs[0].length == o.active.word.len(),
        f.drifting.len() == o.drifting.len() + 1,
        f.drifting.drop_last() == o.drifting,
        f.drifting.last().id == o.active.id,
        f.drifting.last().word == o.active.word,
        f.drifting.last().remaining().len() == 0,
        f.drifting.last().state matches WordState::FloatingAway(v) && drift_speed_ok(v),
        fresh_word(f.active, o.next_id as nat, vocabulary, vp),
        f.score == o.score,
        exactly_one_falling(f.entities()),
{
    let cs = o.active.remaining();
    let (states, outs) = choose|states: Seq<GameView>, outs: Seq<Option<WordCompleted>>|
        #[trigger] typing_run(states, cs, outs, vocabulary, vp) && states[0] == o && states.last()
            == f && collected(outs) == msgs;
    let n = cs.len() as int;
    lemma_run_prefix(states, cs, outs, vocabulary, vp, n - 1);
    let i = n - 1;
    assert(typed_char(states[i], states[i + 1], cs[i], outs[i], vocabulary, vp));
    assert(states[n - 1].active.remaining()[0] == cs[n - 1]);
    assert(outs.take(n).drop_last() =~= outs.take(n - 1));
    assert(outs.take(n) =~= outs);
    let g = f.entities();
    let d = f.drifting.len() as int;
    assert(g[d] == f.active);
    assert forall|j: int| 0 <= j < g.len() && (#[trigger] g[j]).is_falling() implies j == d by {
        if j < d - 1 {
            assert(g[j] == o.drifting[j]);
        } else if j == d - 1 {
            assert(g[j] == f.drifting.last());
        }
    }
}

/// In one frame a word that floats away is destroyed exactly when it is
/// outside the viewport and fully transparent; otherwise it drifts along its
/// vector and its opacity fades by one step.
pub proof fn lemma_drifting_word_frame(e: EntityView, dt: int, vp: Viewport)
    requires
        e.wf(),
        !e.is_falling(),
    ensures
        advanced(seq![e], dt, vp) == (if point_in_bounds(vp, e.position) || e.alpha > 0 {
            seq![e.moved(dt)]
        } else {
            Seq::<EntityView>::empty()
        }),
        e.moved(dt).alpha == faded(e.alpha),
        e.moved(dt).state == e.state,
{
    let s = seq![e];
    assert(s.drop_last() =~= Seq::<EntityView>::empty());
    assert(advanced(Seq::<EntityView>::empty(), dt, vp) == Seq::<EntityView>::empty());
    if point_in_bounds(vp, e.position) || e.alpha > 0 {
        assert(Seq::<EntityView>::empty().push(e.moved(dt)) =~= seq![e.moved(dt)]);
    }
}

/// `e` after `k` frames of `dt` milliseconds each.
pub open spec fn moved_frames(e: EntityView, k: nat, dt: int) -> EntityView
    decreases k,
{
    if k == 0 {
        e
    } else {
        moved_frames(e, (k - 1) as nat, dt).moved(dt)
    }
}

/// A word that floats away from opacity `a` has opacity `faded_after(a, k)`
/// after `k` frames, and each of those frames that starts with the word
/// inside the viewport keeps it.
pub proof fn lemma_drifting_word_frames(e: EntityView, k: nat, dt: int, vp: Viewport)
    requires
        e.wf(),
        !e.is_falling(),
    ensures
        moved_frames(e, k, dt).alpha == faded_after(e.alpha, k),
        moved_frames(e, k, dt).wf(),
        !moved_frames(e, k, dt).is_falling(),
        point_in_bounds(vp, moved_frames(e, k, dt).position) ==> advanced(
            seq![moved_frames(e, k, dt)],
            dt,
            vp,
        ) == seq![moved_frames(e, k + 1, dt)],
    decreases k,
{
    if k > 0 {
        lemma_drifting_word_frames(e, (k - 1) as nat, dt, vp);
        lemma_moved_wf(moved_frames(e, (k - 1) as nat, dt), dt);
    }
    lemma_drifting_word_frame(moved_frames(e, k, dt), dt, vp);
}

/// A drift vector from two uniformly drawn components.
fn random_drift() -> (v: crate::geometry::Velocity)
    ensures
        drift_speed_ok(v),
        exists|cx: int, cy: int| component_ok(cx) && component_ok(cy) && v == drift_of(cx, cy),
{
    let cx = uniform_sample(-COMPONENT_RANGE, COMPONENT_RANGE);
    let cy = uniform_sample(-COMPONENT_RANGE, COMPONENT_RANGE);
    drift_from(cx, cy)
}

/// The game: a word bank, the current level, the score, and the words on
/// screen.
pub struct Game {
    bank: WordBank,
    level: usize,
    scores: ScoreKeeper,
    active: WordEntity,
    drifting: Vec<WordEntity>,
    next_id: u64,
}

impl View for Game {
    type V = GameView;

    closed spec fn view(&self) -> GameView {
        GameView {
            level: self.level as nat,
            score: self.scores@,
            active: self.active@,
            drifting: self.drifting@.map_values(|e: WordEntity| e@),
            next_id: self.next_id as nat,
        }
    }
}

impl Game {
    /// The word bank the game draws from.
    pub closed spec fn bank(&self) -> WordBank {
        self.bank
    }

    /// The words of the current level.
    pub open spec fn vocabulary(&self) -> Seq<Seq<char>> {
        self.bank().vocabulary(self@.level as int)
    }

    pub open spec fn wf(&self) -> bool {
        &&& self.bank().wf()
        &&& self.bank().valid_level(self@.level as int)
        &&& self@.score <= u64::MAX
        &&& self@.entities_wf()
    }

    /// Starts a game at `level`, with one falling word at the top centre of
    /// the viewport and a score of zero. A level outside the bank's tiers is
    /// an error.
    pub fn new(bank: WordBank, level: usize, viewport: Viewport) -> (r: Result<Game, WordBankError>)
        requires
            bank.wf(),
            viewport.wf(),
        ensures
            r is Err <==> !bank.valid_level(level as int),
            r is Err ==> r == Err::<Game, _>(WordBankError::LevelOutOfRange),
            r matches Ok(g) ==> {
                &&& g.wf()
                &&& g.bank() == bank
                &&& g@.level == level
                &&& g@.score == 0
                &&& g@.drifting.len() == 0
                &&& g@.next_id == 1
                &&& fresh_word(g@.active, 0, bank.vocabulary(level as int), viewport)
                &&& exactly_one_falling(g@.entities())
            },
    {
        let word = match bank.next_word(level) {
            Ok(w) => w,
            Err(e) => {
                return Err(e);
            },
        };
        let active = WordEntity::new(0, word, viewport.top_center());
        let g = Game {
            bank,
            level,
            scores: ScoreKeeper::new(),
            active,
            drifting: Vec::new(),
            next_id: 1,
        };
        assert(g@.drifting =~= Seq::<EntityView>::empty());
        proof {
            lemma_exactly_one_falling(g@);
        }
        Ok(g)
    }

    pub fn level(&self) -> (r: usize)
        ensures
            r == self@.level,
    {
        self.level
    }

    pub fn score(&self) -> (r: u64)
        ensures
            r == self@.score,
    {
        self.scores.score()
    }

    /// The id the next word will get.
    pub fn next_id(&self) -> (r: u64)
        ensures
            r == self@.next_id,
    {
        self.next_id
    }

    /// The word being typed.
    pub fn active(&self) -> (r: &WordEntity)
        ensures
            r@ == self@.active,
    {
        &self.active
    }

    /// The completed words that float away, oldest first.
    pub fn drifting(&self) -> (r: &Vec<WordEntity>)
        ensures
            r@.map_values(|e: WordEntity| e@) == self@.drifting,
    {
        &self.drifting
    }

    /// Handles one typed character (see `typed_char`).
    pub fn type_char(&mut self, c: char, viewport: Viewport) -> (r: Option<WordCompleted>)
        requires
            old(self).wf(),
            viewport.wf(),
            old(self)@.next_id < u64::MAX,
        ensures
            final(self).wf(),
            final(self).bank() == old(self).bank(),
            typed_char(old(self)@, final(self)@, c, r, old(self).vocabulary(), viewport),
            exactly_one_falling(final(self)@.entities()),
    {
        let ghost o = self@;
        proof {
            lemma_exactly_one_falling(o);
        }
        match self.active.next_char() {
            Some(d) => {
                if d != c {
                    return None;
                }
            },
            None => {
                return None;
            },
        }
        self.active.advance_typed();
        if self.active.next_char().is_some() {
            proof {
                lemma_exactly_one_falling(self@);
            }
            return None;
        }
        let len = self.active.word().unicode_len();
        let v = random_drift();
        self.active.release(v);
        let word = match self.bank.next_word(self.level) {
            Ok(w) => w,
            Err(_) => {
                return None;
            },
        };
        let mut fresh = WordEntity::new(self.next_id, word, viewport.top_center());
        std::mem::swap(&mut self.active, &mut fresh);
        self.drifting.push(fresh);
        self.next_id = self.next_id + 1;
        proof {
            let f = self@;
            assert(f.drifting.drop_last() =~= o.drifting);
            assert forall|i: int, j: int|
                0 <= i < j < f.drifting.len() implies (#[trigger] f.drifting[i]).id
                < (#[trigger] f.drifting[j]).id by {
                if j < o.drifting.len() {
                    assert(f.drifting[i] == o.drifting[i]);
                    assert(f.drifting[j] == o.drifting[j]);
                } else {
                    assert(f.drifting[i] == o.drifting[i]);
                }
            }
            assert forall|i: int| 0 <= i < f.drifting.len() implies {
                &&& (#[trigger] f.drifting[i]).wf()
                &&& !f.drifting[i].is_falling()
                &&& f.drifting[i].id < f.active.id
            } by {
                if i < o.drifting.len() {
                    assert(f.drifting[i] == o.drifting[i]);
                }
            }
        }
        proof {
            lemma_exactly_one_falling(self@);
        }
        Some(WordCompleted { length: len })
    }

    /// Handles the key events of one frame, in order: releases and keys
    /// without a character are ignored, every other event types its
    /// character. Returns the completion messages, in order.
    pub fn type_keys(&mut self, keys: &Vec<KeyEvent>, viewport: Viewport) -> (r: Vec<WordCompleted>)
        requires
            old(self).wf(),
            viewport.wf(),
            old(self)@.next_id + keys@.len() <= u64::MAX,
        ensures
            final(self).wf(),
            final(self).bank() == old(self).bank(),
            typed_chars(
                old(self)@,
                final(self)@,
                pressed_chars(keys@),
                r@,
                old(self).vocabulary(),
                viewport,
            ),
            final(self)@.level == old(self)@.level,
            final(self)@.score == old(self)@.score,
            total_points(r@) + 10 * final(self)@.active.typed <= 10 * (old(self)@.active.typed
                + keys@.len()),
            exactly_one_falling(final(self)@.entities()),
    {
        let ghost o = self@;
        let ghost vocabulary = self.vocabulary();
        let mut msgs: Vec<WordCompleted> = Vec::new();
        let ghost mut states: Seq<GameView> = seq![o];
        let ghost mut outs: Seq<Option<WordCompleted>> = Seq::empty();
        let mut i: usize = 0;
        while i < keys.len()
            invariant
                self.wf(),
                self.bank() == old(self).bank(),
                vocabulary == self.vocabulary(),
                viewport.wf(),
                i <= keys@.len(),
                o.next_id + keys@.len() <= u64::MAX,
                self@.next_id <= o.next_id + i,
                self@.level == o.level,
                self@.score == o.score,
                typing_run(states, pressed_chars(keys@.take(i as int)), outs, vocabulary, viewport),
                states[0] == o,
                states.last() == self@,
                collected(outs) == msgs@,
                total_points(msgs@) + 10 * self@.active.typed <= 10 * (o.active.typed + i),
            decreases keys@.len() - i,
        {
            let ghost m = self@;
            let ghost pre = msgs@;
            let k = keys[i];
            assert(keys@.take(i + 1).drop_last() =~= keys@.take(i as int));
            assert(keys@.take(i + 1).last() == k);
            if k.pressed {
                match k.character {
                    Some(c) => {
                        let r = self.type_char(c, viewport);
                        match r {
                            Some(msg) => {
                                msgs.push(msg);
                            },
                            None => {},
                        }
                        proof {
                            let cs0 = pressed_chars(keys@.take(i as int));
                            let cs = pressed_chars(keys@.take(i + 1));
                            assert(cs == cs0.push(c));
                            let states2 = states.push(self@);
                            let outs2 = outs.push(r);
                            assert(outs2.drop_last() =~= outs);
                            assert(msgs@ =~= pre + opt_seq(r));
                            assert forall|j: int| 0 <= j < cs.len() implies #[trigger] typed_char(
                                states2[j],
                                states2[j + 1],
                                cs[j],
                                outs2[j],
                                vocabulary,
                                viewport,
                            ) by {
                                if j < cs0.len() {
                                    assert(typed_char(states[j], states[j + 1], cs0[j], outs[j], vocabulary, viewport));
                                }
                            }
                            states = states2;
                            outs = outs2;
                            if r is Some {
                                assert(msgs@.drop_last() =~= pre);
                                assert(total_points(msgs@.drop_last()) == total_points(pre));
                            }
                        }
                    },
                    None => {},
                }
            }
            i = i + 1;
        }
        assert(keys@.take(i as int) =~= keys@);
        assert(typing_run(states, pressed_chars(keys@), outs, vocabulary, viewport));
        proof {
            lemma_exactly_one_falling(self@);
        }
        msgs
    }

    /// Adds the points of the completion messages to the score.
    pub fn update_score(&mut self, msgs: &Vec<WordCompleted>)
        requires
            old(self).wf(),
            old(self)@.score + total_points(msgs@) <= u64::MAX,
        ensures
            final(self).wf(),
            final(self).bank() == old(self).bank(),
            final(self)@ == (GameView { score: old(self)@.score + total_points(msgs@), ..old(self)@ }),
    {
        self.scores.apply(msgs);
    }

    /// One frame of motion of `dt_ms` milliseconds: the active word falls;
    /// each word that floats away and is inside the viewport or still
    /// visible drifts and fades, and every other one is destroyed.
    pub fn advance(&mut self, dt_ms: u32, viewport: Viewport)
        requires
            old(self).wf(),
        ensures
            final(self).wf(),
            final(self).bank() == old(self).bank(),
            exactly_one_falling(final(self)@.entities()),
            final(self)@.active.id == old(self)@.active.id,
            final(self)@.active.word == old(self)@.active.word,
            final(self)@.active.typed == old(self)@.active.typed,
            final(self)@ == (GameView {
                active: old(self)@.active.moved(dt_ms as int),
                drifting: advanced(old(self)@.drifting, dt_ms as int, viewport),
                ..old(self)@
            }),
    {
        let ghost o = self@;
        self.active.step(dt_ms);
        let mut pending: Vec<WordEntity> = Vec::new();
        std::mem::swap(&mut self.drifting, &mut pending);
        let ghost src = pending@.map_values(|e: WordEntity| e@);
        assert(src == o.drifting);
        let ghost mut i: int = 0;
        assert(self.drifting@.map_values(|e: WordEntity| e@) =~= advanced(src.take(0), dt_ms as int, viewport));
        assert(pending@.map_values(|e: WordEntity| e@) =~= src.skip(0));
        while pending.len() > 0
            invariant
                0 <= i <= src.len(),
                i + pending@.len() == src.len(),
                pending@.map_values(|e: WordEntity| e@) == src.skip(i),
                self.drifting@.map_values(|e: WordEntity| e@) == advanced(src.take(i), dt_ms as int, viewport),
                forall|j: int| 0 <= j < src.len() ==> (#[trigger] src[j]).wf(),
                self.bank == old(self).bank,
                self.level == old(self).level,
                self.scores == old(self).scores,
                self.next_id == old(self).next_id,
                self.active@ == o.active.moved(dt_ms as int),
            decreases pending@.len(),
        {
            let ghost before = self.drifting@.map_values(|e: WordEntity| e@);
            let ghost pv = pending@;
            assert(pv.map_values(|e: WordEntity| e@)[0] == src.skip(i)[0]);
            let mut e = pending.remove(0);
            assert(e@ == src[i]);
            assert(src.take(i + 1).drop_last() =~= src.take(i));
            assert forall|k: int| 0 <= k < pending@.len() implies (#[trigger] pending@[k])@ == src.skip(
                i + 1,
            )[k] by {
                assert(pending@[k] == pv[k + 1]);
                assert(pv.map_values(|e: WordEntity| e@)[k + 1] == src.skip(i)[k + 1]);
            }
            assert(pending@.map_values(|e: WordEntity| e@) =~= src.skip(i + 1));
            let keep = match e.state() {
                WordState::Falling => true,
                WordState::FloatingAway(_) => viewport.in_bounds(e.position()) || e.alpha() > 0,
            };
            if keep {
                e.step(dt_ms);
                self.drifting.push(e);
                assert(self.drifting@.map_values(|e: WordEntity| e@) =~= before.push(src[i].moved(dt_ms as int)));
            }
            proof {
                i = i + 1;
            }
        }
        assert(src.take(i) =~= src);
        proof {
            lemma_advanced_wf(src, dt_ms as int, viewport, self.active@.id);
            lemma_exactly_one_falling(self@);
        }
    }

    /// One frame: the key events are typed, the score takes the completion
    /// messages, then everything moves by `dt_ms` milliseconds. Returns the
    /// completion messages of the frame, in order.
    pub fn frame(&mut self, keys: &Vec<KeyEvent>, dt_ms: u32, viewport: Viewport) -> (r: Vec<WordCompleted>)
        requires
            old(self).wf(),
            viewport.wf(),
            old(self)@.next_id + keys@.len() <= u64::MAX,
            old(self)@.score + 10 * (old(self)@.active.typed + keys@.len()) <= u64::MAX,
        ensures
            final(self).wf(),
            final(self).bank() == old(self).bank(),
            exactly_one_falling(final(self)@.entities()),
            exists|m: GameView|
                #[trigger] typed_chars(
                    old(self)@,
                    m,
                    pressed_chars(keys@),
                    r@,
                    old(self).vocabulary(),
                    viewport,
                ) && final(self)@ == (GameView {
                    score: m.score + total_points(r@),
                    active: m.active.moved(dt_ms as int),
                    drifting: advanced(m.drifting, dt_ms as int, viewport),
                    ..m
                }),
    {
        let msgs = self.type_keys(keys, viewport);
        self.update_score(&msgs);
        self.advance(dt_ms, viewport);
        proof {
            lemma_exactly_one_falling(self@);
        }
        msgs
    }

    /// Switches to another level; a level outside the bank's tiers is an error
    /// and changes nothing. Words already on screen keep their text.
    pub fn set_level(&mut self, level: usize) -> (r: Result<(), WordBankError>)
        requires
            old(self).wf(),
        ensures
            final(self).wf(),
            final(self).bank() == old(self).bank(),
            r is Ok <==> old(self).bank().valid_level(level as int),
            r is Err ==> r == Err::<(), _>(WordBankError::LevelOutOfRange) && final(self)@
                == old(self)@,
            r is Ok ==> final(self)@ == (GameView { level: level as nat, ..old(self)@ }),
    {
        if level == 0 || level > self.bank.level_count() {
            return Err(WordBankError::LevelOutOfRange);
        }
        self.level = level;
        Ok(())
    }
}

} // verus!
