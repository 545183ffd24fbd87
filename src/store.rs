//! The producer hierarchy: an arena of hands and an arena of clickers, each
//! clicker holding the id of the hand that owns it.
use vstd::prelude::*;
use crate::error::ProgressError;
use crate::timer::{CooldownTimer, PRODUCER_COOLDOWN};

verus! {

#[derive(Clone, Copy, Debug, PartialEq, Eq, Structural)]
pub enum HandState {
    Filling,
    Combined,
    Autoed,
}

/// A producer group. Its clap timer only runs outside `Filling`.
#[derive(Clone, Copy, Debug)]
pub struct Hand {
    pub id: u64,
    pub state: HandState,
    pub clap_timer: CooldownTimer,
}

/// A leaf producer, owned by the hand whose id is `owner`.
#[derive(Clone, Copy, Debug)]
pub struct Clicker {
    pub id: u64,
    pub owner: u64,
    pub per_click: u64,
    pub timer: CooldownTimer,
}

pub struct StoreView {
    pub hands: Seq<Hand>,
    pub clickers: Seq<Clicker>,
    pub next_id: u64,
}

/// The entries of `s` that satisfy `p`, in order.
pub open spec fn keep<T>(s: Seq<T>, p: spec_fn(T) -> bool) -> Seq<T>
    decreases s.len(),
{
    if s.len() == 0 {
        Seq::empty()
    } else if p(s.last()) {
        keep(s.drop_last(), p).push(s.last())
    } else {
        keep(s.drop_last(), p)
    }
}

pub open spec fn id_is_not(x: u64) -> spec_fn(Hand) -> bool {
    |h: Hand| h.id != x
}

pub open spec fn owner_is(x: u64) -> spec_fn(Clicker) -> bool {
    |c: Clicker| c.owner == x
}

pub open spec fn owner_is_not(x: u64) -> spec_fn(Clicker) -> bool {
    |c: Clicker| c.owner != x
}

/// The clickers owned by hand `h`, in creation order.
pub open spec fn owned(cs: Seq<Clicker>, h: u64) -> Seq<Clicker> {
    keep(cs, owner_is(h))
}

pub open spec fn ids_of(cs: Seq<Clicker>) -> Seq<u64> {
    cs.map_values(|c: Clicker| c.id)
}

/// The position of the hand with id `id`, searching from the back.
pub open spec fn hand_pos(hs: Seq<Hand>, id: u64) -> Option<int>
    decreases hs.len(),
{
    if hs.len() == 0 {
        None
    } else if hs.last().id == id {
        Some(hs.len() - 1)
    } else {
        hand_pos(hs.drop_last(), id)
    }
}

/// The position of the clicker with id `id`, searching from the back.
pub open spec fn clicker_pos(cs: Seq<Clicker>, id: u64) -> Option<int>
    decreases cs.len(),
{
    if cs.len() == 0 {
        None
    } else if cs.last().id == id {
        Some(cs.len() - 1)
    } else {
        clicker_pos(cs.drop_last(), id)
    }
}

pub open spec fn fresh_hand(id: u64) -> Hand {
    Hand { id, state: HandState::Filling, clap_timer: CooldownTimer { elapsed: 0, duration: PRODUCER_COOLDOWN } }
}

pub open spec fn fresh_clicker(id: u64, owner: u64) -> Clicker {
    Clicker {
        id,
        owner,
        per_click: 1,
        timer: CooldownTimer { elapsed: 0, duration: PRODUCER_COOLDOWN },
    }
}

/// A hand after `delta` nanoseconds: the clap timer runs unless it is filling.
pub open spec fn hand_ticked(h: Hand, delta: u64) -> Hand {
    match h.state {
        HandState::Filling => h,
        _ => Hand { clap_timer: h.clap_timer.ticked(delta), ..h },
    }
}

pub open spec fn clicker_ticked(c: Clicker, delta: u64) -> Clicker {
    Clicker { timer: c.timer.ticked(delta), ..c }
}

pub open spec fn producer_timer(t: CooldownTimer) -> bool {
    t.wf() && t.duration == PRODUCER_COOLDOWN
}

impl StoreView {
    pub open spec fn wf(self) -> bool {
        &&& forall|i: int, j: int|
            0 <= i < j < self.hands.len() ==> #[trigger] self.hands[i].id
                < #[trigger] self.hands[j].id
        &&& forall|i: int, j: int|
            0 <= i < j < self.clickers.len() ==> #[trigger] self.clickers[i].id
                < #[trigger] self.clickers[j].id
        &&& forall|i: int| 0 <= i < self.hands.len() ==> #[trigger] self.hands[i].id < self.next_id
        &&& forall|i: int|
            0 <= i < self.clickers.len() ==> #[trigger] self.clickers[i].id < self.next_id
        &&& forall|i: int|
            0 <= i < self.hands.len() ==> producer_timer(#[trigger] self.hands[i].clap_timer)
        &&& forall|i: int|
            0 <= i < self.clickers.len() ==> producer_timer(#[trigger] self.clickers[i].timer)
        &&& forall|i: int|
            0 <= i < self.clickers.len() ==> (#[trigger] hand_pos(
                self.hands,
                self.clickers[i].owner,
            )) is Some
    }

    pub open spec fn children(self, h: u64) -> Seq<u64> {
        ids_of(owned(self.clickers, h))
    }
}

pub proof fn lemma_hand_pos(hs: Seq<Hand>, id: u64)
    ensures
        hand_pos(hs, id) is None <==> forall|k: int| 0 <= k < hs.len() ==> #[trigger] hs[k].id != id,
        hand_pos(hs, id) matches Some(k) ==> 0 <= k < hs.len() && hs[k].id == id,
    decreases hs.len(),
{
    if hs.len() > 0 {
        let t = hs.drop_last();
        lemma_hand_pos(t, id);
        assert(forall|k: int| 0 <= k < t.len() ==> t[k] == #[trigger] hs[k]);
    }
}

pub proof fn lemma_clicker_pos(cs: Seq<Clicker>, id: u64)
    ensures
        clicker_pos(cs, id) is None <==> forall|k: int| 0 <= k < cs.len() ==> #[trigger] cs[k].id != id,
        clicker_pos(cs, id) matches Some(k) ==> 0 <= k < cs.len() && cs[k].id == id,
    decreases cs.len(),
{
    if cs.len() > 0 {
        let t = cs.drop_last();
        lemma_clicker_pos(t, id);
        assert(forall|k: int| 0 <= k < t.len() ==> t[k] == #[trigger] cs[k]);
    }
}

/// Every kept entry is an entry of `s` that satisfies the predicate.
pub proof fn lemma_keep_sub<T>(s: Seq<T>, p: spec_fn(T) -> bool)
    ensures
        keep(s, p).len() <= s.len(),
        forall|m: int|
            0 <= m < keep(s, p).len() ==> exists|k: int|
                0 <= k < s.len() && #[trigger] keep(s, p)[m] == s[k] && p(s[k]),
    decreases s.len(),
{
    if s.len() > 0 {
        let t = s.drop_last();
        lemma_keep_sub(t, p);
        assert forall|m: int| 0 <= m < keep(s, p).len() implies exists|k: int|
            0 <= k < s.len() && #[trigger] keep(s, p)[m] == s[k] && p(s[k]) by {
            if m < keep(t, p).len() {
                let k = choose|k: int| 0 <= k < t.len() && keep(t, p)[m] == t[k] && p(t[k]);
                assert(s[k] == t[k]);
            } else {
                assert(keep(s, p)[m] == s[s.len() - 1]);
            }
        }
    }
}

/// Every entry that satisfies the predicate is kept.
pub proof fn lemma_keep_has<T>(s: Seq<T>, p: spec_fn(T) -> bool, k: int)
    requires
        0 <= k < s.len(),
        p(s[k]),
    ensures
        exists|m: int| 0 <= m < keep(s, p).len() && #[trigger] keep(s, p)[m] == s[k],
    decreases s.len(),
{
    let t = s.drop_last();
    if k == s.len() - 1 {
        assert(keep(s, p)[keep(t, p).len() as int] == s[k]);
    } else {
        lemma_keep_has(t, p, k);
        let m = choose|m: int| 0 <= m < keep(t, p).len() && keep(t, p)[m] == t[k];
        assert(keep(s, p)[m] == s[k]);
    }
}

proof fn lemma_keep_hands_ascending(hs: Seq<Hand>, p: spec_fn(Hand) -> bool)
    requires
        forall|i: int, j: int| 0 <= i < j < hs.len() ==> #[trigger] hs[i].id < #[trigger] hs[j].id,
    ensures
        forall|i: int, j: int|
            0 <= i < j < keep(hs, p).len() ==> #[trigger] keep(hs, p)[i].id < #[trigger] keep(
                hs,
                p,
            )[j].id,
    decreases hs.len(),
{
    if hs.len() > 0 {
        let t = hs.drop_last();
        lemma_keep_hands_ascending(t, p);
        lemma_keep_sub(t, p);
        let r = keep(hs, p);
        assert forall|i: int, j: int| 0 <= i < j < r.len() implies #[trigger] r[i].id
            < #[trigger] r[j].id by {
            if j >= keep(t, p).len() {
                let k = choose|k: int| 0 <= k < t.len() && keep(t, p)[i] == t[k] && p(t[k]);
                assert(hs[k] == t[k]);
            }
        }
    }
}

proof fn lemma_keep_clickers_ascending(cs: Seq<Clicker>, p: spec_fn(Clicker) -> bool)
    requires
        forall|i: int, j: int| 0 <= i < j < cs.len() ==> #[trigger] cs[i].id < #[trigger] cs[j].id,
    ensures
        forall|i: int, j: int|
            0 <= i < j < keep(cs, p).len() ==> #[trigger] keep(cs, p)[i].id < #[trigger] keep(
                cs,
                p,
            )[j].id,
    decreases cs.len(),
{
    if cs.len() > 0 {
        let t = cs.drop_last();
        lemma_keep_clickers_ascending(t, p);
        lemma_keep_sub(t, p);
        let r = keep(cs, p);
        assert forall|i: int, j: int| 0 <= i < j < r.len() implies #[trigger] r[i].id
            < #[trigger] r[j].id by {
            if j >= keep(t, p).len() {
                let k = choose|k: int| 0 <= k < t.len() && keep(t, p)[i] == t[k] && p(t[k]);
                assert(cs[k] == t[k]);
            }
        }
    }
}

pub open spec fn hands_ticked(hs: Seq<Hand>, delta: u64) -> Seq<Hand> {
    hs.map_values(|h: Hand| hand_ticked(h, delta))
}

pub open spec fn clickers_ticked(cs: Seq<Clicker>, delta: u64) -> Seq<Clicker> {
    cs.map_values(|c: Clicker| clicker_ticked(c, delta))
}

/// Owns every hand and clicker. Ids come from one counter and are never
/// handed out twice.
pub struct EntityStore {
    hands: Vec<Hand>,
    clickers: Vec<Clicker>,
    next_id: u64,
}

impl View for EntityStore {
    type V = StoreView;

    closed spec fn view(&self) -> StoreView {
        StoreView { hands: self.hands@, clickers: self.clickers@, next_id: self.next_id }
    }
}

impl EntityStore {
    /// An empty store.
    pub fn new() -> (r: EntityStore)
        ensures
            r@ == (StoreView { hands: Seq::empty(), clickers: Seq::empty(), next_id: 0 }),
            r@.wf(),
    {
        EntityStore { hands: Vec::new(), clickers: Vec::new(), next_id: 0 }
    }

    /// All live hands, oldest first.
    pub fn hands(&self) -> (r: &Vec<Hand>)
        ensures
            r@ == self@.hands,
    {
        &self.hands
    }

    /// All live clickers, oldest first.
    pub fn clickers(&self) -> (r: &Vec<Clicker>)
        ensures
            r@ == self@.clickers,
    {
        &self.clickers
    }

    /// How many more ids the store can hand out.
    pub fn ids_left(&self) -> (r: u64)
        ensures
            r == u64::MAX - self@.next_id,
    {
        u64::MAX - self.next_id
    }

    pub fn find_hand(&self, id: u64) -> (r: Option<usize>)
        ensures
            r is None ==> hand_pos(self@.hands, id) is None,
            r matches Some(i) ==> hand_pos(self@.hands, id) == Some(i as int),
    {
        let mut i: usize = self.hands.len();
        assert(self.hands@.take(i as int) =~= self.hands@);
        while i > 0
            invariant
                i <= self.hands.len(),
                hand_pos(self.hands@, id) == hand_pos(self.hands@.take(i as int), id),
            decreases i,
        {
            assert(self.hands@.take(i as int).drop_last() =~= self.hands@.take(i - 1));
            if self.hands[i - 1].id == id {
                return Some(i - 1);
            }
            i = i - 1;
        }
        None
    }

    pub fn find_clicker(&self, id: u64) -> (r: Option<usize>)
        ensures
            r is None ==> clicker_pos(self@.clickers, id) is None,
            r matches Some(i) ==> clicker_pos(self@.clickers, id) == Some(i as int),
    {
        let mut i: usize = self.clickers.len();
        assert(self.clickers@.take(i as int) =~= self.clickers@);
        while i > 0
            invariant
                i <= self.clickers.len(),
                clicker_pos(self.clickers@, id) == clicker_pos(self.clickers@.take(i as int), id),
            decreases i,
        {
            assert(self.clickers@.take(i as int).drop_last() =~= self.clickers@.take(i - 1));
            if self.clickers[i - 1].id == id {
                return Some(i - 1);
            }
            i = i - 1;
        }
        None
    }

    /// Adds a filling hand with no clickers and returns its id.
    pub fn create_hand(&mut self) -> (r: u64)
        requires
            old(self)@.wf(),
            old(self)@.next_id < u64::MAX,
        ensures
            r == old(self)@.next_id,
            final(self)@ == (StoreView {
                hands: old(self)@.hands.push(fresh_hand(r)),
                clickers: old(self)@.clickers,
                next_id: (r + 1) as u64,
            }),
            final(self)@.wf(),
    {
        let id = self.next_id;
        let ghost old_hands = self.hands@;
        self.hands.push(
            Hand { id, state: HandState::Filling, clap_timer: CooldownTimer::producer() },
        );
        self.next_id = id + 1;
        proof {
            assert forall|i: int| 0 <= i < self.clickers@.len() implies (#[trigger] hand_pos(
                self.hands@,
                self.clickers@[i].owner,
            )) is Some by {
                let o = self.clickers@[i].owner;
                lemma_hand_pos(old_hands, o);
                lemma_hand_pos(self.hands@, o);
                let k = hand_pos(old_hands, o)->Some_0;
                assert(self.hands@[k] == old_hands[k]);
            }
        }
        id
    }

    /// Adds a clicker owned by hand `parent` and returns its id.
    pub fn create_clicker(&mut self, parent: u64) -> (r: Result<u64, ProgressError>)
        requires
            old(self)@.wf(),
            old(self)@.next_id < u64::MAX,
        ensures
            hand_pos(old(self)@.hands, parent) is None ==> r == Err::<u64, ProgressError>(
                ProgressError::EntityNotFound,
            ) && final(self)@ == old(self)@,
            hand_pos(old(self)@.hands, parent) is Some ==> r == Ok::<u64, ProgressError>(
                old(self)@.next_id,
            ) && final(self)@ == (StoreView {
                hands: old(self)@.hands,
                clickers: old(self)@.clickers.push(fresh_clicker(old(self)@.next_id, parent)),
                next_id: (old(self)@.next_id + 1) as u64,
            }),
            final(self)@.wf(),
    {
        if self.find_hand(parent).is_none() {
            return Err(ProgressError::EntityNotFound);
        }
        let id = self.next_id;
        self.clickers.push(
            Clicker { id, owner: parent, per_click: 1, timer: CooldownTimer::producer() },
        );
        self.next_id = id + 1;
        Ok(id)
    }

    /// The ids of the clickers that hand `id` owns, oldest first.
    pub fn children_of(&self, id: u64) -> (r: Result<Vec<u64>, ProgressError>)
        ensures
            hand_pos(self@.hands, id) is None ==> r == Err::<Vec<u64>, ProgressError>(
                ProgressError::EntityNotFound,
            ),
            hand_pos(self@.hands, id) is Some ==> (r matches Ok(v) && v@ == self@.children(id)),
    {
        if self.find_hand(id).is_none() {
            return Err(ProgressError::EntityNotFound);
        }
        let mut out: Vec<u64> = Vec::new();
        let mut i: usize = 0;
        while i < self.clickers.len()
            invariant
                0 <= i <= self.clickers.len(),
                out@ == ids_of(owned(self.clickers@.take(i as int), id)),
            decreases self.clickers.len() - i,
        {
            let ghost before = out@;
            assert(self.clickers@.take(i + 1).drop_last() =~= self.clickers@.take(i as int));
            let c = self.clickers[i];
            if c.owner == id {
                out.push(c.id);
                assert(out@ =~= ids_of(owned(self.clickers@.take(i + 1), id)));
            }
            i = i + 1;
        }
        assert(self.clickers@.take(i as int) =~= self.clickers@);
        Ok(out)
    }

    /// How many clickers hand `id` owns.
    pub fn child_count(&self, id: u64) -> (r: u64)
        ensures
            r == owned(self@.clickers, id).len(),
    {
        let mut count: u64 = 0;
        let mut i: usize = 0;
        while i < self.clickers.len()
            invariant
                0 <= i <= self.clickers.len(),
                count == owned(self.clickers@.take(i as int), id).len(),
                count <= i,
            decreases self.clickers.len() - i,
        {
            assert(self.clickers@.take(i + 1).drop_last() =~= self.clickers@.take(i as int));
            if self.clickers[i].owner == id {
                count = count + 1;
            }
            i = i + 1;
        }
        assert(self.clickers@.take(i as int) =~= self.clickers@);
        count
    }

    /// Removes hand `id` together with every clicker it owns.
    pub fn destroy_hand(&mut self, id: u64) -> (r: Result<(), ProgressError>)
        requires
            old(self)@.wf(),
        ensures
            hand_pos(old(self)@.hands, id) is None ==> r == Err::<(), ProgressError>(
                ProgressError::EntityNotFound,
            ) && final(self)@ == old(self)@,
            hand_pos(old(self)@.hands, id) is Some ==> r == Ok::<(), ProgressError>(())
                && final(self)@ == (StoreView {
                hands: keep(old(self)@.hands, id_is_not(id)),
                clickers: keep(old(self)@.clickers, owner_is_not(id)),
                next_id: old(self)@.next_id,
            }),
            final(self)@.wf(),
    {
        if self.find_hand(id).is_none() {
            return Err(ProgressError::EntityNotFound);
        }
        let ghost hs = self.hands@;
        let ghost cs = self.clickers@;
        let mut hands: Vec<Hand> = Vec::new();
        let mut i: usize = 0;
        while i < self.hands.len()
            invariant
                self.hands@ == hs,
                0 <= i <= hs.len(),
                hands@ == keep(hs.take(i as int), id_is_not(id)),
            decreases hs.len() - i,
        {
            assert(hs.take(i + 1).drop_last() =~= hs.take(i as int));
            let h = self.hands[i];
            if h.id != id {
                hands.push(h);
            }
            i = i + 1;
        }
        assert(hs.take(i as int) =~= hs);
        let mut clickers: Vec<Clicker> = Vec::new();
        let mut j: usize = 0;
        while j < self.clickers.len()
            invariant
                self.clickers@ == cs,
                0 <= j <= cs.len(),
                clickers@ == keep(cs.take(j as int), owner_is_not(id)),
            decreases cs.len() - j,
        {
            assert(cs.take(j + 1).drop_last() =~= cs.take(j as int));
            let c = self.clickers[j];
            if c.owner != id {
                clickers.push(c);
            }
            j = j + 1;
        }
        assert(cs.take(j as int) =~= cs);
        self.hands = hands;
        self.clickers = clickers;
        proof {
            let nh = self.hands@;
            let nc = self.clickers@;
            lemma_keep_hands_ascending(hs, id_is_not(id));
            lemma_keep_clickers_ascending(cs, owner_is_not(id));
            lemma_keep_sub(hs, id_is_not(id));
            lemma_keep_sub(cs, owner_is_not(id));
            assert forall|m: int| 0 <= m < nc.len() implies (#[trigger] hand_pos(
                nh,
                nc[m].owner,
            )) is Some by {
                let k = choose|k: int|
                    0 <= k < cs.len() && nc[m] == cs[k] && owner_is_not(id)(cs[k]);
                let o = cs[k].owner;
                lemma_hand_pos(hs, o);
                let q = hand_pos(hs, o)->Some_0;
                lemma_keep_has(hs, id_is_not(id), q);
                let w = choose|w: int| 0 <= w < nh.len() && nh[w] == hs[q];
                lemma_hand_pos(nh, o);
                assert(nh[w].id == o);
            }
        }
        Ok(())
    }

    /// Puts hand `id` into state `state`.
    pub fn set_state(&mut self, id: u64, state: HandState) -> (r: Result<(), ProgressError>)
        requires
            old(self)@.wf(),
        ensures
            hand_pos(old(self)@.hands, id) is None ==> r == Err::<(), ProgressError>(
                ProgressError::EntityNotFound,
            ) && final(self)@ == old(self)@,
            hand_pos(old(self)@.hands, id) matches Some(i) ==> r == Ok::<(), ProgressError>(())
                && final(self)@ == (StoreView {
                hands: old(self)@.hands.update(i, Hand { state, ..old(self)@.hands[i] }),
                ..old(self)@
            }),
            final(self)@.wf(),
    {
        match self.find_hand(id) {
            None => Err(ProgressError::EntityNotFound),
            Some(i) => {
                proof {
                    lemma_hand_pos(self.hands@, id);
                }
                let h = self.hands[i];
                self.set_hand(i, Hand { state, ..h });
                Ok(())
            },
        }
    }

    /// Replaces the hand at position `i` by `h`, which keeps its id.
    pub fn set_hand(&mut self, i: usize, h: Hand)
        requires
            old(self)@.wf(),
            i < old(self)@.hands.len(),
            h.id == old(self)@.hands[i as int].id,
            producer_timer(h.clap_timer),
        ensures
            final(self)@ == (StoreView { hands: old(self)@.hands.update(i as int, h), ..old(self)@ }),
            final(self)@.wf(),
    {
        let ghost hs = self.hands@;
        self.hands[i] = h;
        proof {
            assert forall|m: int| 0 <= m < self.clickers@.len() implies (#[trigger] hand_pos(
                self.hands@,
                self.clickers@[m].owner,
            )) is Some by {
                let o = self.clickers@[m].owner;
                lemma_hand_pos(hs, o);
                lemma_hand_pos(self.hands@, o);
                let k = hand_pos(hs, o)->Some_0;
                assert(self.hands@[k].id == o);
            }
        }
    }

    /// Replaces the clicker at position `i` by `c`, which keeps its id and owner.
    pub fn set_clicker(&mut self, i: usize, c: Clicker)
        requires
            old(self)@.wf(),
            i < old(self)@.clickers.len(),
            c.id == old(self)@.clickers[i as int].id,
            c.owner == old(self)@.clickers[i as int].owner,
            producer_timer(c.timer),
        ensures
            final(self)@ == (StoreView {
                clickers: old(self)@.clickers.update(i as int, c),
                ..old(self)@
            }),
            final(self)@.wf(),
    {
        self.clickers[i] = c;
        proof {
            assert forall|m: int| 0 <= m < self.clickers@.len() implies (#[trigger] hand_pos(
                self.hands@,
                self.clickers@[m].owner,
            )) is Some by {
                if m != i {
                    assert(self.clickers@[m] == old(self)@.clickers[m]);
                }
            }
        }
    }

    /// Removes every hand and clicker; ids already handed out stay used.
    pub fn clear(&mut self)
        requires
            old(self)@.wf(),
        ensures
            final(self)@ == (StoreView {
                hands: Seq::empty(),
                clickers: Seq::empty(),
                next_id: old(self)@.next_id,
            }),
            final(self)@.wf(),
    {
        self.hands = Vec::new();
        self.clickers = Vec::new();
    }

    /// Lets `delta` nanoseconds pass on every clicker timer and on the clap
    /// timer of every hand that is not filling.
    pub fn advance(&mut self, delta: u64)
        requires
            old(self)@.wf(),
        ensures
            final(self)@ == (StoreView {
                hands: hands_ticked(old(self)@.hands, delta),
                clickers: clickers_ticked(old(self)@.clickers, delta),
                next_id: old(self)@.next_id,
            }),
            final(self)@.wf(),
    {
        let ghost hs = self.hands@;
        let ghost cs = self.clickers@;
        let mut i: usize = 0;
        while i < self.hands.len()
            invariant
                self.hands@.len() == hs.len(),
                self.clickers@ == cs,
                self.next_id == old(self).next_id,
                0 <= i <= hs.len(),
                forall|k: int| 0 <= k < i ==> #[trigger] self.hands@[k] == hand_ticked(hs[k], delta),
                forall|k: int| i <= k < hs.len() ==> #[trigger] self.hands@[k] == hs[k],
                forall|k: int| 0 <= k < hs.len() ==> producer_timer(#[trigger] hs[k].clap_timer),
            decreases hs.len() - i,
        {
            let mut h = self.hands[i];
            match h.state {
                HandState::Filling => {},
                _ => {
                    h.clap_timer.tick(delta);
                },
            }
            self.hands[i] = h;
            i = i + 1;
        }
        assert(self.hands@ =~= hands_ticked(hs, delta));
        let mut j: usize = 0;
        while j < self.clickers.len()
            invariant
                self.clickers@.len() == cs.len(),
                self.hands@ == hands_ticked(hs, delta),
                self.next_id == old(self).next_id,
                0 <= j <= cs.len(),
                forall|k: int| 0 <= k < j ==> #[trigger] self.clickers@[k] == clicker_ticked(cs[k], delta),
                forall|k: int| j <= k < cs.len() ==> #[trigger] self.clickers@[k] == cs[k],
                forall|k: int| 0 <= k < cs.len() ==> producer_timer(#[trigger] cs[k].timer),
            decreases cs.len() - j,
        {
            let mut c = self.clickers[j];
            c.timer.tick(delta);
            self.clickers[j] = c;
            j = j + 1;
        }
        assert(self.hands@ =~= hands_ticked(hs, delta));
        assert(self.clickers@ =~= clickers_ticked(cs, delta));
        proof {
            assert forall|m: int| 0 <= m < self.clickers@.len() implies (#[trigger] hand_pos(
                self.hands@,
                self.clickers@[m].owner,
            )) is Some by {
                let o = cs[m].owner;
                lemma_hand_pos(hs, o);
                lemma_hand_pos(self.hands@, o);
                let k = hand_pos(hs, o)->Some_0;
                assert(self.hands@[k].id == o);
            }
        }
    }
}

} // verus!
