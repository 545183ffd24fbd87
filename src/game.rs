//! The controller: the only writer of the economy and the entity store. It
//! applies intents, lets timers run, fires automated hands, folds the tick's
//! events into the stored clicks and detects the win.
use vstd::prelude::*;
use crate::economy::{
    cashout_cost_of, finger_cost_of, hand_cost_of, saturate, EconomyState, AUTO_COST, COMBINE_COST,
    WIN_SCORE,
};
use crate::error::ProgressError;
use crate::events::EventLog;
use crate::store::{
    clicker_pos, clickers_ticked, fresh_clicker, fresh_hand, hand_pos, hands_ticked, lemma_clicker_pos,
    lemma_hand_pos, owned, Clicker,
    EntityStore, Hand, HandState, StoreView,
};

verus! {

#[derive(Clone, Copy, Debug, PartialEq, Eq, Structural)]
pub enum Phase {
    Welcome,
    Running,
    Finished,
}

/// A player action, naming the hand (and clicker) it acts on.
#[derive(Clone, Copy, Debug, PartialEq, Eq)]
pub enum Intent {
    BuyFinger(u64),
    CombineHand(u64),
    Click(u64, u64),
    MakeAuto(u64),
    Clap(u64),
    BuyHand,
    Cashout,
}

pub struct GameView {
    pub phase: Phase,
    pub economy: EconomyState,
    pub store: StoreView,
    pub events: Seq<u64>,
}

pub type Outcome = (GameView, Result<(), ProgressError>);

impl GameView {
    pub open spec fn wf(self) -> bool {
        self.economy.wf() && self.store.wf()
    }

    pub open spec fn multiplier(self) -> u64 {
        self.economy.multiplier_spec()
    }

    pub open spec fn with_economy(self, e: EconomyState) -> GameView {
        GameView { economy: e, ..self }
    }

    pub open spec fn with_store(self, s: StoreView) -> GameView {
        GameView { store: s, ..self }
    }

    pub open spec fn with_hand(self, i: int, h: Hand) -> GameView {
        self.with_store(StoreView { hands: self.store.hands.update(i, h), ..self.store })
    }

    pub open spec fn emitting(self, amount: u64) -> GameView {
        GameView { events: self.events.push(amount), ..self }
    }

    pub open spec fn paying(self, cost: u64) -> GameView {
        self.with_economy(
            EconomyState { stored_clicks: (self.economy.stored_clicks - cost) as u64, ..self.economy },
        )
    }
}

pub open spec fn rejected(g: GameView, e: ProgressError) -> Outcome {
    (g, Err(e))
}

pub open spec fn buy_finger_spec(g: GameView, h: u64) -> Outcome {
    match hand_pos(g.store.hands, h) {
        None => rejected(g, ProgressError::EntityNotFound),
        Some(i) => {
            let e = g.economy;
            let cost = finger_cost_of(e.total_fingers);
            if g.store.hands[i].state != HandState::Filling {
                rejected(g, ProgressError::WrongHandState)
            } else if e.stored_clicks < cost {
                rejected(g, ProgressError::InsufficientResource)
            } else if e.total_fingers == u64::MAX || g.store.next_id == u64::MAX {
                rejected(g, ProgressError::ArithmeticOverflow)
            } else {
                let paid = g.paying(cost);
                (
                    paid.with_economy(
                        EconomyState {
                            total_fingers: (e.total_fingers + 1) as u64,
                            ..paid.economy
                        },
                    ).with_store(
                        StoreView {
                            clickers: g.store.clickers.push(fresh_clicker(g.store.next_id, h)),
                            next_id: (g.store.next_id + 1) as u64,
                            ..g.store
                        },
                    ),
                    Ok(()),
                )
            }
        },
    }
}

pub open spec fn combine_hand_spec(g: GameView, h: u64) -> Outcome {
    match hand_pos(g.store.hands, h) {
        None => rejected(g, ProgressError::EntityNotFound),
        Some(i) => {
            let hand = g.store.hands[i];
            let e = g.economy;
            if hand.state != HandState::Filling {
                rejected(g, ProgressError::WrongHandState)
            } else if e.stored_clicks < COMBINE_COST {
                rejected(g, ProgressError::InsufficientResource)
            } else if e.total_hands == u64::MAX {
                rejected(g, ProgressError::ArithmeticOverflow)
            } else {
                let paid = g.paying(COMBINE_COST);
                (
                    paid.with_economy(
                        EconomyState { total_hands: (e.total_hands + 1) as u64, ..paid.economy },
                    ).with_hand(
                        i,
                        Hand {
                            state: HandState::Combined,
                            clap_timer: hand.clap_timer.restarted(),
                            ..hand
                        },
                    ),
                    Ok(()),
                )
            }
        },
    }
}

pub open spec fn click_spec(g: GameView, h: u64, c: u64) -> Outcome {
    match (hand_pos(g.store.hands, h), clicker_pos(g.store.clickers, c)) {
        (Some(i), Some(j)) => {
            let clicker = g.store.clickers[j];
            if clicker.owner != h {
                rejected(g, ProgressError::EntityNotFound)
            } else if g.store.hands[i].state != HandState::Filling {
                rejected(g, ProgressError::WrongHandState)
            } else if !clicker.timer.is_finished() {
                rejected(g, ProgressError::TimerNotReady)
            } else {
                (
                    g.with_store(
                        StoreView {
                            clickers: g.store.clickers.update(
                                j,
                                Clicker { timer: clicker.timer.restarted(), ..clicker },
                            ),
                            ..g.store
                        },
                    ).emitting(saturate(clicker.per_click * g.multiplier())),
                    Ok(()),
                )
            }
        },
        _ => rejected(g, ProgressError::EntityNotFound),
    }
}

pub open spec fn make_auto_spec(g: GameView, h: u64) -> Outcome {
    match hand_pos(g.store.hands, h) {
        None => rejected(g, ProgressError::EntityNotFound),
        Some(i) => {
            let hand = g.store.hands[i];
            if hand.state != HandState::Combined {
                rejected(g, ProgressError::WrongHandState)
            } else if g.economy.stored_clicks < AUTO_COST {
                rejected(g, ProgressError::InsufficientResource)
            } else {
                (g.paying(AUTO_COST).with_hand(i, Hand { state: HandState::Autoed, ..hand }), Ok(()))
            }
        },
    }
}

/// What a hand's clap yields: one unit per owned clicker, times the multiplier.
pub open spec fn clap_yield(g: GameView, h: u64) -> u64 {
    saturate(owned(g.store.clickers, h).len() * g.multiplier())
}

pub open spec fn clap_spec(g: GameView, h: u64) -> Outcome {
    match hand_pos(g.store.hands, h) {
        None => rejected(g, ProgressError::EntityNotFound),
        Some(i) => {
            let hand = g.store.hands[i];
            if hand.state != HandState::Combined {
                rejected(g, ProgressError::WrongHandState)
            } else if !hand.clap_timer.is_finished() {
                rejected(g, ProgressError::TimerNotReady)
            } else {
                (
                    g.with_hand(i, Hand { clap_timer: hand.clap_timer.restarted(), ..hand }).emitting(
                        clap_yield(g, h),
                    ),
                    Ok(()),
                )
            }
        },
    }
}

pub open spec fn buy_hand_spec(g: GameView) -> Outcome {
    let e = g.economy;
    let cost = hand_cost_of(e.total_hands);
    if e.stored_clicks < cost {
        rejected(g, ProgressError::InsufficientResource)
    } else if e.total_hands == u64::MAX || g.store.next_id == u64::MAX {
        rejected(g, ProgressError::ArithmeticOverflow)
    } else {
        let paid = g.paying(cost);
        (
            paid.with_economy(
                EconomyState { total_hands: (e.total_hands + 1) as u64, ..paid.economy },
            ).with_store(
                StoreView {
                    hands: g.store.hands.push(fresh_hand(g.store.next_id)),
                    next_id: (g.store.next_id + 1) as u64,
                    ..g.store
                },
            ),
            Ok(()),
        )
    }
}

/// Prestige: the cashout cost is subtracted from the stored clicks (the
/// balance is not zeroed), the level rises by one, the finger and hand counts
/// start over, and every entity gives way to one fresh hand owning one fresh
/// clicker.
pub open spec fn cashout_spec(g: GameView) -> Outcome {
    let e = g.economy;
    match cashout_cost_of(e.buildings) {
        None => rejected(g, ProgressError::PrestigeExhausted),
        Some(cost) => {
            let n = g.store.next_id;
            if e.stored_clicks < cost {
                rejected(g, ProgressError::InsufficientResource)
            } else if n >= u64::MAX - 1 {
                rejected(g, ProgressError::ArithmeticOverflow)
            } else {
                (
                    g.with_economy(
                        EconomyState {
                            stored_clicks: (e.stored_clicks - cost) as u64,
                            total_fingers: 1,
                            total_hands: 0,
                            buildings: (e.buildings + 1) as u32,
                        },
                    ).with_store(
                        StoreView {
                            hands: seq![fresh_hand(n)],
                            clickers: seq![fresh_clicker((n + 1) as u64, n)],
                            next_id: (n + 2) as u64,
                        },
                    ),
                    Ok(()),
                )
            }
        },
    }
}

/// The outcome of one intent. Outside the running phase every intent is
/// turned away.
pub open spec fn apply_spec(g: GameView, intent: Intent) -> Outcome {
    if g.phase != Phase::Running {
        rejected(g, ProgressError::NotRunning)
    } else {
        match intent {
            Intent::BuyFinger(h) => buy_finger_spec(g, h),
            Intent::CombineHand(h) => combine_hand_spec(g, h),
            Intent::Click(h, c) => click_spec(g, h, c),
            Intent::MakeAuto(h) => make_auto_spec(g, h),
            Intent::Clap(h) => clap_spec(g, h),
            Intent::BuyHand => buy_hand_spec(g),
            Intent::Cashout => cashout_spec(g),
        }
    }
}

/// Whether a hand fires by itself this tick.
pub open spec fn fires(h: Hand) -> bool {
    h.state == HandState::Autoed && h.clap_timer.is_finished()
}

pub open spec fn after_fire(h: Hand) -> Hand {
    if fires(h) {
        Hand { clap_timer: h.clap_timer.restarted(), ..h }
    } else {
        h
    }
}

/// The yields of the automated hands among `hs` whose timers ran out, in order.
pub open spec fn auto_yields(hs: Seq<Hand>, cs: Seq<Clicker>, m: u64) -> Seq<u64>
    decreases hs.len(),
{
    if hs.len() == 0 {
        Seq::empty()
    } else if fires(hs.last()) {
        auto_yields(hs.drop_last(), cs, m).push(saturate(owned(cs, hs.last().id).len() * m))
    } else {
        auto_yields(hs.drop_last(), cs, m)
    }
}

pub open spec fn auto_fire_spec(g: GameView) -> GameView {
    GameView {
        store: StoreView {
            hands: g.store.hands.map_values(|h: Hand| after_fire(h)),
            ..g.store
        },
        events: g.events + auto_yields(g.store.hands, g.store.clickers, g.multiplier()),
        ..g
    }
}

pub open spec fn advance_spec(g: GameView, delta: u64) -> GameView {
    g.with_store(
        StoreView {
            hands: hands_ticked(g.store.hands, delta),
            clickers: clickers_ticked(g.store.clickers, delta),
            ..g.store
        },
    )
}

/// `stored` with every amount of `evs` added in turn, saturating.
pub open spec fn fold_events(stored: u64, evs: Seq<u64>) -> u64
    decreases evs.len(),
{
    if evs.len() == 0 {
        stored
    } else {
        saturate(fold_events(stored, evs.drop_last()) + evs.last())
    }
}

/// Folds the tick's events into the stored clicks, then checks for the win.
pub open spec fn collect_spec(g: GameView) -> GameView {
    let stored = fold_events(g.economy.stored_clicks, g.events);
    GameView {
        phase: if stored >= WIN_SCORE {
            Phase::Finished
        } else {
            g.phase
        },
        economy: EconomyState { stored_clicks: stored, ..g.economy },
        events: Seq::empty(),
        ..g
    }
}

/// The intents applied in order, with the result of each.
pub open spec fn apply_all(g: GameView, intents: Seq<Intent>) -> (GameView, Seq<
    Result<(), ProgressError>,
>)
    decreases intents.len(),
{
    if intents.len() == 0 {
        (g, Seq::empty())
    } else {
        let (g1, rs) = apply_all(g, intents.drop_last());
        let (g2, r) = apply_spec(g1, intents.last());
        (g2, rs.push(r))
    }
}

/// One tick: timers run, intents apply, automated hands fire, events are
/// folded and the win is checked. Outside the running phase nothing changes.
pub open spec fn step_spec(g: GameView, delta: u64, intents: Seq<Intent>) -> (GameView, Seq<
    Result<(), ProgressError>,
>) {
    if g.phase != Phase::Running {
        (g, Seq::new(intents.len(), |k: int| Err(ProgressError::NotRunning)))
    } else {
        let (g2, rs) = apply_all(advance_spec(g, delta), intents);
        (collect_spec(auto_fire_spec(g2)), rs)
    }
}

/// `a * b`, saturating at `u64::MAX`.
fn saturating_product(a: u64, b: u64) -> (r: u64)
    ensures
        r == saturate(a * b),
{
    if a != 0 && b > u64::MAX / a {
        proof {
            assert(a * b > u64::MAX) by (nonlinear_arith)
                requires
                    a >= 1,
                    b > u64::MAX / a,
            ;
        }
        u64::MAX
    } else {
        proof {
            assert(a * b <= u64::MAX && a * b >= 0) by (nonlinear_arith)
                requires
                    a == 0 || b <= u64::MAX / a,
                    b >= 0,
                    a >= 0,
            ;
        }
        a * b
    }
}

/// The whole progression state; every change goes through its methods.
pub struct Game {
    phase: Phase,
    economy: EconomyState,
    store: EntityStore,
    log: EventLog,
}

impl View for Game {
    type V = GameView;

    closed spec fn view(&self) -> GameView {
        GameView { phase: self.phase, economy: self.economy, store: self.store@, events: self.log@ }
    }
}

impl Game {
    /// A game at its welcome phase, with the starting counters and no entities.
    pub fn new() -> (g: Game)
        ensures
            g@ == (GameView {
                phase: Phase::Welcome,
                economy: EconomyState {
                    stored_clicks: 0,
                    total_fingers: 1,
                    total_hands: 0,
                    buildings: 1,
                },
                store: StoreView { hands: Seq::empty(), clickers: Seq::empty(), next_id: 0 },
                events: Seq::empty(),
            }),
            g@.wf(),
    {
        Game {
            phase: Phase::Welcome,
            economy: EconomyState::new(),
            store: EntityStore::new(),
            log: EventLog::new(),
        }
    }

    /// A running game with the given counters and the starting entities: one
    /// filling hand that owns one clicker.
    pub fn resume(economy: EconomyState) -> (g: Game)
        requires
            economy.wf(),
        ensures
            g@ == (GameView {
                phase: Phase::Running,
                economy,
                store: StoreView {
                    hands: seq![fresh_hand(0)],
                    clickers: seq![fresh_clicker(1, 0)],
                    next_id: 2,
                },
                events: Seq::empty(),
            }),
            g@.wf(),
    {
        let mut store = EntityStore::new();
        let h = store.create_hand();
        let _ = store.create_clicker(h);
        proof {
            lemma_hand_pos(store@.hands, h);
            assert(store@.hands =~= seq![fresh_hand(0)]);
            assert(store@.clickers =~= seq![fresh_clicker(1, 0)]);
        }
        Game { phase: Phase::Running, economy, store, log: EventLog::new() }
    }

    /// Leaves the welcome phase and spawns the first hand with one clicker.
    pub fn start(&mut self) -> (r: bool)
        requires
            old(self)@.wf(),
        ensures
            r == (old(self)@.phase == Phase::Welcome && old(self)@.store.next_id < u64::MAX - 1),
            r ==> final(self)@ == (GameView {
                phase: Phase::Running,
                store: StoreView {
                    hands: old(self)@.store.hands.push(fresh_hand(old(self)@.store.next_id)),
                    clickers: old(self)@.store.clickers.push(
                        fresh_clicker(
                            (old(self)@.store.next_id + 1) as u64,
                            old(self)@.store.next_id,
                        ),
                    ),
                    next_id: (old(self)@.store.next_id + 2) as u64,
                },
                ..old(self)@
            }),
            !r ==> final(self)@ == old(self)@,
            final(self)@.wf(),
    {
        if self.phase != Phase::Welcome || self.store.ids_left() < 2 {
            return false;
        }
        let h = self.store.create_hand();
        let _ = self.store.create_clicker(h);
        proof {
            lemma_hand_pos(self.store@.hands, h);
            assert(self.store@.hands.last().id == h);
        }
        self.phase = Phase::Running;
        true
    }

    pub fn phase(&self) -> (r: Phase)
        ensures
            r == self@.phase,
    {
        self.phase
    }

    /// A copy of the economy counters, whose methods give the costs and the
    /// multiplier.
    pub fn economy(&self) -> (r: EconomyState)
        ensures
            r == self@.economy,
    {
        self.economy
    }

    pub fn store(&self) -> (r: &EntityStore)
        ensures
            r@ == self@.store,
    {
        &self.store
    }

    /// Events emitted this tick and not yet folded in.
    pub fn pending_events(&self) -> (r: &Vec<u64>)
        ensures
            r@ == self@.events,
    {
        self.log.pending()
    }

    /// What a clap of hand `h` would yield now: its clicker count times the
    /// multiplier, saturating.
    pub fn clap_yield(&self, h: u64) -> (r: u64)
        requires
            self@.wf(),
        ensures
            r == clap_yield(self@, h),
    {
        let count = self.store.child_count(h);
        saturating_product(count, self.economy.multiplier())
    }

    fn buy_finger(&mut self, h: u64) -> (r: Result<(), ProgressError>)
        requires
            old(self)@.wf(),
        ensures
            (final(self)@, r) == buy_finger_spec(old(self)@, h),
            final(self)@.wf(),
    {
        let i = match self.store.find_hand(h) {
            None => return Err(ProgressError::EntityNotFound),
            Some(i) => i,
        };
        proof {
            lemma_hand_pos(self.store@.hands, h);
        }
        let hand = self.store.hands()[i];
        if hand.state != HandState::Filling {
            return Err(ProgressError::WrongHandState);
        }
        let cost = self.economy.finger_cost();
        if self.economy.stored_clicks < cost {
            return Err(ProgressError::InsufficientResource);
        }
        if self.economy.total_fingers == u64::MAX || self.store.ids_left() == 0 {
            return Err(ProgressError::ArithmeticOverflow);
        }
        self.economy.stored_clicks = self.economy.stored_clicks - cost;
        self.economy.total_fingers = self.economy.total_fingers + 1;
        let _ = self.store.create_clicker(h);
        Ok(())
    }

    fn combine_hand(&mut self, h: u64) -> (r: Result<(), ProgressError>)
        requires
            old(self)@.wf(),
        ensures
            (final(self)@, r) == combine_hand_spec(old(self)@, h),
            final(self)@.wf(),
    {
        let i = match self.store.find_hand(h) {
            None => return Err(ProgressError::EntityNotFound),
            Some(i) => i,
        };
        proof {
            lemma_hand_pos(self.store@.hands, h);
        }
        let hand = self.store.hands()[i];
        if hand.state != HandState::Filling {
            return Err(ProgressError::WrongHandState);
        }
        if self.economy.stored_clicks < COMBINE_COST {
            return Err(ProgressError::InsufficientResource);
        }
        if self.economy.total_hands == u64::MAX {
            return Err(ProgressError::ArithmeticOverflow);
        }
        self.economy.stored_clicks = self.economy.stored_clicks - COMBINE_COST;
        self.economy.total_hands = self.economy.total_hands + 1;
        let mut timer = hand.clap_timer;
        timer.reset();
        self.store.set_hand(i, Hand { state: HandState::Combined, clap_timer: timer, ..hand });
        Ok(())
    }

    fn click(&mut self, h: u64, c: u64) -> (r: Result<(), ProgressError>)
        requires
            old(self)@.wf(),
        ensures
            (final(self)@, r) == click_spec(old(self)@, h, c),
            final(self)@.wf(),
    {
        let i = match self.store.find_hand(h) {
            None => return Err(ProgressError::EntityNotFound),
            Some(i) => i,
        };
        let j = match self.store.find_clicker(c) {
            None => return Err(ProgressError::EntityNotFound),
            Some(j) => j,
        };
        proof {
            lemma_hand_pos(self.store@.hands, h);
            lemma_clicker_pos(self.store@.clickers, c);
        }
        let clicker = self.store.clickers()[j];
        if clicker.owner != h {
            return Err(ProgressError::EntityNotFound);
        }
        let hand = self.store.hands()[i];
        if hand.state != HandState::Filling {
            return Err(ProgressError::WrongHandState);
        }
        if !clicker.timer.finished() {
            return Err(ProgressError::TimerNotReady);
        }
        let mut timer = clicker.timer;
        timer.reset();
        self.store.set_clicker(j, Clicker { timer, ..clicker });
        let m = self.economy.multiplier();
        self.log.emit(saturating_product(clicker.per_click, m));
        Ok(())
    }

    fn make_auto(&mut self, h: u64) -> (r: Result<(), ProgressError>)
        requires
            old(self)@.wf(),
        ensures
            (final(self)@, r) == make_auto_spec(old(self)@, h),
            final(self)@.wf(),
    {
        let i = match self.store.find_hand(h) {
            None => return Err(ProgressError::EntityNotFound),
            Some(i) => i,
        };
        proof {
            lemma_hand_pos(self.store@.hands, h);
        }
        let hand = self.store.hands()[i];
        if hand.state != HandState::Combined {
            return Err(ProgressError::WrongHandState);
        }
        if self.economy.stored_clicks < AUTO_COST {
            return Err(ProgressError::InsufficientResource);
        }
        self.economy.stored_clicks = self.economy.stored_clicks - AUTO_COST;
        self.store.set_hand(i, Hand { state: HandState::Autoed, ..hand });
        Ok(())
    }

    fn clap(&mut self, h: u64) -> (r: Result<(), ProgressError>)
        requires
            old(self)@.wf(),
        ensures
            (final(self)@, r) == clap_spec(old(self)@, h),
            final(self)@.wf(),
    {
        let i = match self.store.find_hand(h) {
            None => return Err(ProgressError::EntityNotFound),
            Some(i) => i,
        };
        proof {
            lemma_hand_pos(self.store@.hands, h);
        }
        let hand = self.store.hands()[i];
        if hand.state != HandState::Combined {
            return Err(ProgressError::WrongHandState);
        }
        if !hand.clap_timer.finished() {
            return Err(ProgressError::TimerNotReady);
        }
        let count = self.store.child_count(h);
        let m = self.economy.multiplier();
        let amount = saturating_product(count, m);
        let mut timer = hand.clap_timer;
        timer.reset();
        self.store.set_hand(i, Hand { clap_timer: timer, ..hand });
        self.log.emit(amount);
        Ok(())
    }

    fn buy_hand(&mut self) -> (r: Result<(), ProgressError>)
        requires
            old(self)@.wf(),
        ensures
            (final(self)@, r) == buy_hand_spec(old(self)@),
            final(self)@.wf(),
    {
        let cost = self.economy.hand_cost();
        if self.economy.stored_clicks < cost {
            return Err(ProgressError::InsufficientResource);
        }
        if self.economy.total_hands == u64::MAX || self.store.ids_left() == 0 {
            return Err(ProgressError::ArithmeticOverflow);
        }
        self.economy.stored_clicks = self.economy.stored_clicks - cost;
        self.economy.total_hands = self.economy.total_hands + 1;
        let _ = self.store.create_hand();
        Ok(())
    }

    fn cashout(&mut self) -> (r: Result<(), ProgressError>)
        requires
            old(self)@.wf(),
        ensures
            (final(self)@, r) == cashout_spec(old(self)@),
            final(self)@.wf(),
    {
        let cost = match self.economy.cashout_cost() {
            None => return Err(ProgressError::PrestigeExhausted),
            Some(cost) => cost,
        };
        if self.economy.stored_clicks < cost {
            return Err(ProgressError::InsufficientResource);
        }
        if self.store.ids_left() < 2 {
            return Err(ProgressError::ArithmeticOverflow);
        }
        self.economy = EconomyState {
            stored_clicks: self.economy.stored_clicks - cost,
            total_fingers: 1,
            total_hands: 0,
            buildings: self.economy.buildings + 1,
        };
        self.store.clear();
        let h = self.store.create_hand();
        let _ = self.store.create_clicker(h);
        proof {
            lemma_hand_pos(self.store@.hands, h);
            assert(self.store@.hands =~= seq![fresh_hand(h)]);
            assert(self.store@.clickers =~= seq![fresh_clicker((h + 1) as u64, h)]);
        }
        Ok(())
    }

    /// Applies one intent. A rejected intent changes nothing.
    pub fn apply_intent(&mut self, intent: Intent) -> (r: Result<(), ProgressError>)
        requires
            old(self)@.wf(),
        ensures
            (final(self)@, r) == apply_spec(old(self)@, intent),
            final(self)@.wf(),
    {
        if self.phase != Phase::Running {
            return Err(ProgressError::NotRunning);
        }
        match intent {
            Intent::BuyFinger(h) => self.buy_finger(h),
            Intent::CombineHand(h) => self.combine_hand(h),
            Intent::Click(h, c) => self.click(h, c),
            Intent::MakeAuto(h) => self.make_auto(h),
            Intent::Clap(h) => self.clap(h),
            Intent::BuyHand => self.buy_hand(),
            Intent::Cashout => self.cashout(),
        }
    }

    /// Lets `delta` nanoseconds pass on every running timer.
    pub fn advance_timers(&mut self, delta: u64)
        requires
            old(self)@.wf(),
        ensures
            final(self)@ == advance_spec(old(self)@, delta),
            final(self)@.wf(),
    {
        self.store.advance(delta);
    }

    /// Every automated hand whose clap timer ran out restarts it and emits
    /// its clap yield, in hand order.
    pub fn auto_fire(&mut self)
        requires
            old(self)@.wf(),
        ensures
            final(self)@ == auto_fire_spec(old(self)@),
            final(self)@.wf(),
    {
        let ghost g = self@;
        let ghost hs = self.store@.hands;
        let ghost cs = self.store@.clickers;
        let m = self.economy.multiplier();
        let n = self.store.hands().len();
        let mut i: usize = 0;
        while i < n
            invariant
                0 <= i <= n,
                n == hs.len(),
                self@.wf(),
                self.phase == g.phase,
                self.economy == g.economy,
                m == g.multiplier(),
                self.store@.hands.len() == n,
                self.store@.clickers == cs,
                self.store@.next_id == g.store.next_id,
                forall|k: int| 0 <= k < i ==> #[trigger] self.store@.hands[k] == after_fire(hs[k]),
                forall|k: int| i <= k < n ==> #[trigger] self.store@.hands[k] == hs[k],
                self.log@ == g.events + auto_yields(hs.take(i as int), cs, m),
            decreases n - i,
        {
            let hand = self.store.hands()[i];
            let ghost before = self.log@;
            proof {
                assert(hs.take(i + 1).drop_last() =~= hs.take(i as int));
                assert(hs.take(i + 1).last() == hs[i as int]);
            }
            let fire = match hand.state {
                HandState::Autoed => hand.clap_timer.finished(),
                _ => false,
            };
            if fire {
                let mut timer = hand.clap_timer;
                timer.reset();
                self.store.set_hand(i, Hand { clap_timer: timer, ..hand });
                let count = self.store.child_count(hand.id);
                self.log.emit(saturating_product(count, m));
                assert(self.log@ =~= g.events + auto_yields(hs.take(i + 1), cs, m));
            }
            i = i + 1;
        }
        assert(hs.take(n as int) =~= hs);
        assert(self.store@.hands =~= hs.map_values(|h: Hand| after_fire(h)));
    }

    /// Folds the tick's events into the stored clicks, saturating, and moves
    /// to `Finished` once the win score is reached. Returns the folded events.
    pub fn collect(&mut self) -> (r: Vec<u64>)
        requires
            old(self)@.wf(),
        ensures
            final(self)@ == collect_spec(old(self)@),
            r@ == old(self)@.events,
            final(self)@.wf(),
    {
        let evs = self.log.drain();
        let mut stored = self.economy.stored_clicks;
        let mut i: usize = 0;
        while i < evs.len()
            invariant
                0 <= i <= evs.len(),
                stored == fold_events(self.economy.stored_clicks, evs@.take(i as int)),
            decreases evs.len() - i,
        {
            assert(evs@.take(i + 1).drop_last() =~= evs@.take(i as int));
            stored = stored.saturating_add(evs[i]);
            i = i + 1;
        }
        assert(evs@.take(i as int) =~= evs@);
        self.economy.stored_clicks = stored;
        if stored >= WIN_SCORE {
            self.phase = Phase::Finished;
        }
        evs
    }

    /// One tick: timers run by `delta` nanoseconds, the intents apply in
    /// order, automated hands fire, the events are folded in and the win is
    /// checked. Returns the result of each intent and the folded events.
    /// Outside the running phase every intent is rejected and nothing changes.
    pub fn step(&mut self, delta: u64, intents: &Vec<Intent>) -> (r: (
        Vec<Result<(), ProgressError>>,
        Vec<u64>,
    ))
        requires
            old(self)@.wf(),
        ensures
            (final(self)@, r.0@) == step_spec(old(self)@, delta, intents@),
            old(self)@.phase == Phase::Running ==> r.1@ == auto_fire_spec(
                apply_all(advance_spec(old(self)@, delta), intents@).0,
            ).events,
            old(self)@.phase != Phase::Running ==> r.1@.len() == 0,
            final(self)@.wf(),
    {
        let mut results: Vec<Result<(), ProgressError>> = Vec::new();
        if self.phase != Phase::Running {
            let mut k: usize = 0;
            while k < intents.len()
                invariant
                    0 <= k <= intents.len(),
                    results@ =~= Seq::new(k as nat, |q: int| Err(ProgressError::NotRunning)),
                decreases intents.len() - k,
            {
                results.push(Err(ProgressError::NotRunning));
                k = k + 1;
            }
            return (results, Vec::new());
        }
        self.advance_timers(delta);
        let ghost g1 = self@;
        let mut i: usize = 0;
        while i < intents.len()
            invariant
                0 <= i <= intents.len(),
                self@.wf(),
                (self@, results@) == apply_all(g1, intents@.take(i as int)),
            decreases intents.len() - i,
        {
            assert(intents@.take(i + 1).drop_last() =~= intents@.take(i as int));
            let r = self.apply_intent(intents[i]);
            results.push(r);
            i = i + 1;
        }
        assert(intents@.take(i as int) =~= intents@);
        self.auto_fire();
        let emitted = self.collect();
        (results, emitted)
    }
}

} // verus!
