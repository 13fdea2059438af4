use rand::Rng;
use std::collections::VecDeque;
use vstd::prelude::*;

use crate::error::ChumError;

verus! {

/// Capacity of a queue built by `Queue::new`.
pub const DEF_QUEUE_CAP: usize = 1_000_000;

/// Admission and eviction policy of a `Queue`.
///
/// - `Lru`: first in, first out; when full the oldest token is evicted.
/// - `Mru`: a stack; when full the token on top is replaced by the new one.
/// - `Rand`: an array; when full a rotating cursor picks the slot to overwrite,
///   and `get` hands out a token at a random index.
#[derive(Debug, Clone, Copy, PartialEq, Eq, Structural)]
pub enum QueueMode {
    Lru,
    Mru,
    Rand,
}

/// Error for a queue mode name that is not one of `lru`, `mru`, `rand`.
#[derive(Debug, PartialEq, Eq, Structural)]
pub struct QueueModeError;

impl QueueModeError {
    pub fn message(&self) -> (r: String)
        ensures
            r@ == "invalid queue mode"@,
    {
        "invalid queue mode".to_owned()
    }
}

impl QueueMode {
    /// Reads a mode from its lower-case name.
    pub fn parse(s: &str) -> (r: Result<QueueMode, QueueModeError>)
        ensures
            s@ == "lru"@ <==> r == Ok::<QueueMode, QueueModeError>(QueueMode::Lru),
            s@ == "mru"@ <==> r == Ok::<QueueMode, QueueModeError>(QueueMode::Mru),
            s@ == "rand"@ <==> r == Ok::<QueueMode, QueueModeError>(QueueMode::Rand),
    {
        proof {
            reveal_strlit("lru");
            reveal_strlit("mru");
            reveal_strlit("rand");
        }
        let n = s.unicode_len();
        if n == 3 && s.get_char(0) == 'l' && s.get_char(1) == 'r' && s.get_char(2) == 'u' {
            assert(s@ =~= "lru"@);
            Ok(QueueMode::Lru)
        } else if n == 3 && s.get_char(0) == 'm' && s.get_char(1) == 'r' && s.get_char(2) == 'u' {
            assert(s@ =~= "mru"@);
            Ok(QueueMode::Mru)
        } else if n == 4 && s.get_char(0) == 'r' && s.get_char(1) == 'a' && s.get_char(2) == 'n'
            && s.get_char(3) == 'd' {
            assert(s@ =~= "rand"@);
            Ok(QueueMode::Rand)
        } else {
            Err(QueueModeError)
        }
    }

    /// The lower-case name of the mode.
    pub fn name(&self) -> (r: String)
        ensures
            *self == QueueMode::Lru ==> r@ == "lru"@,
            *self == QueueMode::Mru ==> r@ == "mru"@,
            *self == QueueMode::Rand ==> r@ == "rand"@,
    {
        match self {
            QueueMode::Lru => "lru".to_owned(),
            QueueMode::Mru => "mru".to_owned(),
            QueueMode::Rand => "rand".to_owned(),
        }
    }
}

impl std::str::FromStr for QueueMode {
    type Err = QueueModeError;

    fn from_str(s: &str) -> (r: Result<QueueMode, QueueModeError>)
        ensures
            s@ == "lru"@ <==> r == Ok::<QueueMode, QueueModeError>(QueueMode::Lru),
            s@ == "mru"@ <==> r == Ok::<QueueMode, QueueModeError>(QueueMode::Mru),
            s@ == "rand"@ <==> r == Ok::<QueueMode, QueueModeError>(QueueMode::Rand),
    {
        QueueMode::parse(s)
    }
}

/// The abstract state of a queue: its tokens in order (oldest first for `Lru`
/// and `Mru`, slot order for `Rand`) and the `Rand` cursor.
pub type QueueState<T> = (Seq<T>, nat);

/// A reachable state: at most `cap` tokens, and the cursor inside the queue
/// (zero when it is empty).
pub open spec fn state_ok<T>(cap: nat, st: QueueState<T>) -> bool {
    &&& st.0.len() <= cap
    &&& (st.0.len() == 0 ==> st.1 == 0)
    &&& (st.0.len() > 0 ==> st.1 < st.0.len())
}

/// What `replace` does to a non-empty queue: the eviction step of `mode`.
pub open spec fn replace_step<T>(mode: QueueMode, st: QueueState<T>, x: T) -> QueueState<T> {
    let (s, c) = st;
    if s.len() == 0 {
        st
    } else {
        match mode {
            QueueMode::Lru => (s.drop_first().push(x), c),
            QueueMode::Mru => (s.drop_last().push(x), c),
            QueueMode::Rand => (s.update(c as int, x), ((c + 1) % s.len()) as nat),
        }
    }
}

/// What `insert` does: append below capacity, evict at capacity.
pub open spec fn insert_step<T>(mode: QueueMode, cap: nat, st: QueueState<T>, x: T) -> QueueState<T> {
    if st.0.len() < cap {
        (st.0.push(x), st.1)
    } else {
        replace_step(mode, st, x)
    }
}

/// The state reached from `st` by inserting the tokens of `xs` in order.
pub open spec fn insert_all<T>(mode: QueueMode, cap: nat, st: QueueState<T>, xs: Seq<T>) -> QueueState<T>
    decreases xs.len(),
{
    if xs.len() == 0 {
        st
    } else {
        insert_step(mode, cap, insert_all(mode, cap, st, xs.drop_last()), xs.last())
    }
}

/// The state that `remove` leaves behind, for a non-empty queue.
pub open spec fn remove_step<T>(mode: QueueMode, st: QueueState<T>) -> QueueState<T> {
    let (s, c) = st;
    match mode {
        QueueMode::Lru => (s.drop_first(), c),
        QueueMode::Mru => (s.drop_last(), c),
        QueueMode::Rand => {
            let t = s.update(c as int, s.last()).drop_last();
            (t, if t.len() > 0 { ((c + 1) % t.len()) as nat } else { 0 })
        },
    }
}

/// The token that `remove` hands out, for a non-empty queue.
pub open spec fn removed_token<T>(mode: QueueMode, st: QueueState<T>) -> T {
    match mode {
        QueueMode::Lru => st.0[0],
        QueueMode::Mru => st.0.last(),
        QueueMode::Rand => st.0[st.1 as int],
    }
}

/// A capacity-bounded store of work tokens under one `QueueMode`.
pub struct Queue<T> {
    ring: VecDeque<T>,
    slots: Vec<T>,
    cap: usize,
    mode: QueueMode,
    cursor: usize,
}

impl<T> View for Queue<T> {
    type V = Seq<T>;

    closed spec fn view(&self) -> Seq<T> {
        if self.mode == QueueMode::Rand {
            self.slots@
        } else {
            self.ring@
        }
    }
}

/// Relies on rand's `thread_rng().gen_range(low, high)`: a value in `[low, high)`;
/// it panics only when `low >= high`.
#[verifier::external_body]
fn random_index(len: usize) -> (r: usize)
    requires
        len > 0,
    ensures
        r < len,
{
    rand::thread_rng().gen_range(0, len)
}

impl<T> Queue<T> {
    pub closed spec fn spec_cap(&self) -> nat {
        self.cap as nat
    }

    pub closed spec fn spec_mode(&self) -> QueueMode {
        self.mode
    }

    pub closed spec fn spec_cursor(&self) -> nat {
        self.cursor as nat
    }

    /// The abstract state of the queue.
    pub open spec fn state(&self) -> QueueState<T> {
        (self@, self.spec_cursor())
    }

    /// Well-formedness: the capacity is at least one, never exceeded, and the
    /// cursor points inside the queue.
    pub closed spec fn wf(&self) -> bool {
        &&& self.cap >= 1
        &&& self@.len() <= self.cap
        &&& state_ok(self.cap as nat, self.state())
        &&& (self.mode == QueueMode::Rand ==> self.ring@.len() == 0)
        &&& (self.mode != QueueMode::Rand ==> self.slots@.len() == 0 && self.cursor == 0)
    }

    /// What well-formedness says of the abstract state.
    pub proof fn lemma_wf(&self)
        requires
            self.wf(),
        ensures
            self.spec_cap() >= 1,
            state_ok(self.spec_cap(), self.state()),
    {
    }

    /// A queue of capacity `DEF_QUEUE_CAP`.
    pub fn new(mode: QueueMode) -> (r: Queue<T>)
        ensures
            r.wf(),
            r@.len() == 0,
            r.spec_cap() == DEF_QUEUE_CAP,
            r.spec_mode() == mode,
            r.spec_cursor() == 0,
    {
        Queue { ring: VecDeque::new(), slots: Vec::new(), cap: DEF_QUEUE_CAP, mode, cursor: 0 }
    }

    /// A queue of capacity `cap`; a capacity of zero is rejected.
    pub fn with_capacity(mode: QueueMode, cap: usize) -> (r: Result<Queue<T>, ChumError>)
        ensures
            r is Err <==> cap == 0,
            r is Err ==> r->Err_0@ == "queue capacity must be at least 1"@,
            r is Ok ==> {
                let q = r->Ok_0;
                &&& q.wf()
                &&& q@.len() == 0
                &&& q.spec_cap() == cap
                &&& q.spec_mode() == mode
                &&& q.spec_cursor() == 0
            },
    {
        if cap == 0 {
            return Err(ChumError::new("queue capacity must be at least 1"));
        }
        Ok(Queue { ring: VecDeque::new(), slots: Vec::new(), cap, mode, cursor: 0 })
    }

    pub fn len(&self) -> (r: usize)
        requires
            self.wf(),
        ensures
            r == self@.len(),
    {
        if self.mode == QueueMode::Rand {
            self.slots.len()
        } else {
            self.ring.len()
        }
    }

    pub fn is_empty(&self) -> (r: bool)
        requires
            self.wf(),
        ensures
            r == (self@.len() == 0),
    {
        self.len() == 0
    }

    pub fn capacity(&self) -> (r: usize)
        ensures
            r == self.spec_cap(),
    {
        self.cap
    }

    pub fn mode(&self) -> (r: QueueMode)
        ensures
            r == self.spec_mode(),
    {
        self.mode
    }

    /// Inserts a token: appended below capacity, by the mode's eviction step
    /// at capacity.
    pub fn insert(&mut self, qi: T)
        requires
            old(self).wf(),
        ensures
            final(self).wf(),
            final(self).spec_mode() == old(self).spec_mode(),
            final(self).spec_cap() == old(self).spec_cap(),
            final(self).state() == insert_step(
                old(self).spec_mode(),
                old(self).spec_cap(),
                old(self).state(),
                qi,
            ),
    {
        if self.len() < self.cap {
            if self.mode == QueueMode::Rand {
                self.slots.push(qi);
            } else {
                self.ring.push_back(qi);
            }
            return;
        }
        self.replace(qi);
    }

    /// Hands out a token without removing it: the oldest for `Lru`, the top
    /// of the stack for `Mru`, one at a random index for `Rand`; `None` when
    /// the queue is empty.
    pub fn get(&self) -> (r: Option<&T>)
        requires
            self.wf(),
        ensures
            r is None <==> self@.len() == 0,
            r is Some ==> match self.spec_mode() {
                QueueMode::Lru => *r->0 == self@[0],
                QueueMode::Mru => *r->0 == self@.last(),
                QueueMode::Rand => self@.contains(*r->0),
            },
    {
        match self.mode {
            QueueMode::Lru => {
                if self.ring.len() == 0 {
                    return None;
                }
                Some(&self.ring[0])
            },
            QueueMode::Mru => {
                let n = self.ring.len();
                if n == 0 {
                    return None;
                }
                Some(&self.ring[n - 1])
            },
            QueueMode::Rand => {
                let n = self.slots.len();
                if n == 0 {
                    return None;
                }
                let i = random_index(n);
                self.get_at(i)
            },
        }
    }

    /// The token at position `i` (oldest first for `Lru` and `Mru`, slot `i`
    /// for `Rand`), without removing it; `None` when `i` is out of range.
    pub fn get_at(&self, i: usize) -> (r: Option<&T>)
        requires
            self.wf(),
        ensures
            i < self@.len() ==> r == Some(&self@[i as int]),
            i >= self@.len() ==> r is None,
    {
        if self.mode == QueueMode::Rand {
            if i < self.slots.len() {
                Some(&self.slots[i])
            } else {
                None
            }
        } else {
            if i < self.ring.len() {
                Some(&self.ring[i])
            } else {
                None
            }
        }
    }

    /// Takes a token out: the one `get` would hand out for `Lru` and `Mru`,
    /// the one under the cursor for `Rand` (its slot is filled by the last
    /// token); `None`, with nothing changed, when the queue is empty.
    pub fn remove(&mut self) -> (r: Option<T>)
        requires
            old(self).wf(),
        ensures
            final(self).wf(),
            final(self).spec_mode() == old(self).spec_mode(),
            final(self).spec_cap() == old(self).spec_cap(),
            r is None <==> old(self)@.len() == 0,
            r is None ==> final(self).state() == old(self).state(),
            r is Some ==> r->0 == removed_token(old(self).spec_mode(), old(self).state())
                && final(self).state() == remove_step(old(self).spec_mode(), old(self).state()),
    {
        match self.mode {
            QueueMode::Lru => self.ring.pop_front(),
            QueueMode::Mru => self.ring.pop_back(),
            QueueMode::Rand => {
                let n = self.slots.len();
                if n == 0 {
                    return None;
                }
                let ret = self.slots.swap_remove(self.cursor);
                if n - 1 > 0 {
                    self.cursor = (self.cursor + 1) % (n - 1);
                } else {
                    self.cursor = 0;
                }
                Some(ret)
            },
        }
    }

    /// The eviction step on a non-empty queue: `Lru` drops the oldest token
    /// and appends `qi`, `Mru` overwrites the top, `Rand` overwrites the slot
    /// under the cursor and advances it. Nothing happens on an empty queue.
    pub fn replace(&mut self, qi: T)
        requires
            old(self).wf(),
        ensures
            final(self).wf(),
            final(self).spec_mode() == old(self).spec_mode(),
            final(self).spec_cap() == old(self).spec_cap(),
            final(self).state() == replace_step(old(self).spec_mode(), old(self).state(), qi),
    {
        match self.mode {
            QueueMode::Lru => {
                if self.ring.len() == 0 {
                    return;
                }
                let _ = self.ring.pop_front();
                self.ring.push_back(qi);
            },
            QueueMode::Mru => {
                if self.ring.len() == 0 {
                    return;
                }
                let _ = self.ring.pop_back();
                self.ring.push_back(qi);
            },
            QueueMode::Rand => {
                let n = self.slots.len();
                if n == 0 {
                    return;
                }
                self.slots.set(self.cursor, qi);
                self.cursor = (self.cursor + 1) % n;
            },
        }
    }
}

/// One insert keeps a reachable state reachable, grows the queue by one
/// below capacity and keeps its length at capacity.
pub proof fn lemma_insert_step<T>(mode: QueueMode, cap: nat, st: QueueState<T>, x: T)
    requires
        cap >= 1,
        state_ok(cap, st),
    ensures
        state_ok(cap, insert_step(mode, cap, st, x)),
        insert_step(mode, cap, st, x).0.len() == if st.0.len() < cap {
            (st.0.len() + 1) as int
        } else {
            cap as int
        },
        forall|i: int|
            0 <= i < insert_step(mode, cap, st, x).0.len() ==> (#[trigger] insert_step(
                mode,
                cap,
                st,
                x,
            ).0[i] == x || st.0.contains(insert_step(mode, cap, st, x).0[i])),
{
    let s = st.0;
    let t = insert_step(mode, cap, st, x).0;
    assert forall|i: int| 0 <= i < t.len() implies (t[i] == x || s.contains(t[i])) by {
        if s.len() < cap {
            if i < s.len() {
                assert(t[i] == s[i]);
            }
        } else {
            match mode {
                QueueMode::Lru => {
                    if i < t.len() - 1 {
                        assert(t[i] == s[i + 1]);
                    }
                },
                QueueMode::Mru => {
                    if i < t.len() - 1 {
                        assert(t[i] == s[i]);
                    }
                },
                QueueMode::Rand => {
                    if i != st.1 {
                        assert(t[i] == s[i]);
                    }
                },
            }
        }
    }
}

/// Inserting the tokens `xs` into an empty queue of capacity `cap` leaves
/// `min(|xs|, cap)` tokens: the length counts the inserts until the capacity
/// is reached, and stays at the capacity under every further insert.
pub proof fn lemma_len_after_inserts<T>(mode: QueueMode, cap: nat, xs: Seq<T>)
    requires
        cap >= 1,
    ensures
        state_ok(cap, insert_all(mode, cap, (Seq::empty(), 0nat), xs)),
        insert_all(mode, cap, (Seq::empty(), 0nat), xs).0.len() == if xs.len() <= cap {
            xs.len()
        } else {
            cap
        },
    decreases xs.len(),
{
    if xs.len() > 0 {
        lemma_len_after_inserts(mode, cap, xs.drop_last());
        lemma_insert_step(mode, cap, insert_all(mode, cap, (Seq::empty(), 0nat), xs.drop_last()), xs.last());
    }
}

/// After any run of inserts into an empty queue, every token it holds is one
/// of the inserted tokens, and it holds at most `cap` of them.
pub proof fn lemma_held_were_inserted<T>(mode: QueueMode, cap: nat, xs: Seq<T>)
    requires
        cap >= 1,
    ensures
        insert_all(mode, cap, (Seq::empty(), 0nat), xs).0.len() <= cap,
        forall|i: int|
            0 <= i < insert_all(mode, cap, (Seq::empty(), 0nat), xs).0.len() ==> xs.contains(
                #[trigger] insert_all(mode, cap, (Seq::empty(), 0nat), xs).0[i],
            ),
    decreases xs.len(),
{
    lemma_len_after_inserts(mode, cap, xs);
    if xs.len() > 0 {
        let prev = insert_all(mode, cap, (Seq::empty(), 0nat), xs.drop_last());
        lemma_held_were_inserted(mode, cap, xs.drop_last());
        lemma_len_after_inserts(mode, cap, xs.drop_last());
        lemma_insert_step(mode, cap, prev, xs.last());
        let t = insert_all(mode, cap, (Seq::empty(), 0nat), xs).0;
        assert forall|i: int| 0 <= i < t.len() implies xs.contains(#[trigger] t[i]) by {
            if t[i] == xs.last() {
                assert(xs[xs.len() - 1] == t[i]);
            } else {
                assert(prev.0.contains(t[i]));
                let j = choose|j: int| 0 <= j < prev.0.len() && prev.0[j] == t[i];
                assert(xs.drop_last().contains(prev.0[j]));
                let k = choose|k: int| 0 <= k < xs.drop_last().len() && xs.drop_last()[k] == t[i];
                assert(xs[k] == t[i]);
            }
        }
    }
}

} // verus!
