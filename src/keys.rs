use vstd::prelude::*;

verus! {

/// Key codes, as the windowing layer numbers them.
pub const KEY_A: i32 = 65;
pub const KEY_D: i32 = 68;
pub const KEY_S: i32 = 83;
pub const KEY_W: i32 = 87;
pub const KEY_ESCAPE: i32 = 256;

/// What happened to a key.
#[derive(Clone, Copy, Debug, PartialEq, Eq, Structural)]
pub enum KeyAction {
    Press,
    Release,
    Repeat,
}

/// One change of a key's state.
#[derive(Clone, Copy, Debug, PartialEq, Eq, Structural)]
pub struct KeyEvent {
    pub key: i32,
    pub action: KeyAction,
}

/// No event at index `i` or later releases `k`.
pub open spec fn unreleased_from(events: Seq<KeyEvent>, k: i32, i: int) -> bool {
    forall|j: int|
        i <= j < events.len() ==> events[j] != (KeyEvent { key: k, action: KeyAction::Release })
}

/// Event `i` presses `k`, and no later event releases it.
pub open spec fn last_pressed_at(events: Seq<KeyEvent>, k: i32, i: int) -> bool {
    0 <= i < events.len() && events[i] == (KeyEvent { key: k, action: KeyAction::Press })
        && unreleased_from(events, k, i + 1)
}

/// Whether `k` is held after `events`, starting from the keys in `start`:
/// some press of it is followed by no release, or it was held at the start
/// and no event releases it.
pub open spec fn held_after(start: Set<i32>, events: Seq<KeyEvent>, k: i32) -> bool {
    (exists|i: int| last_pressed_at(events, k, i))
        || (start.contains(k) && unreleased_from(events, k, 0))
}

/// The keys held after `events`, starting from `start`.
pub open spec fn held_set(start: Set<i32>, events: Seq<KeyEvent>) -> Set<i32> {
    Set::new(|k: i32| held_after(start, events, k))
}

/// The held set after one more event: a press adds its key, a release takes
/// it out, a repeat changes nothing.
pub open spec fn step_held(held: Set<i32>, e: KeyEvent) -> Set<i32> {
    match e.action {
        KeyAction::Press => held.insert(e.key),
        KeyAction::Release => held.remove(e.key),
        KeyAction::Repeat => held,
    }
}

proof fn lemma_unreleased_push(events: Seq<KeyEvent>, e: KeyEvent, k: i32, i: int)
    requires
        0 <= i <= events.len(),
    ensures
        unreleased_from(events.push(e), k, i) == (unreleased_from(events, k, i)
            && e != (KeyEvent { key: k, action: KeyAction::Release })),
{
    let ev2 = events.push(e);
    assert(ev2[events.len() as int] == e);
    if unreleased_from(events, k, i) && e != (KeyEvent { key: k, action: KeyAction::Release }) {
        assert forall|j: int| i <= j < ev2.len() implies ev2[j] != (KeyEvent {
            key: k,
            action: KeyAction::Release,
        }) by {
            if j < events.len() {
                assert(ev2[j] == events[j]);
            }
        }
    }
    if unreleased_from(ev2, k, i) {
        assert forall|j: int| i <= j < events.len() implies events[j] != (KeyEvent {
            key: k,
            action: KeyAction::Release,
        }) by {
            assert(ev2[j] == events[j]);
        }
    }
}

proof fn lemma_held_after_push(start: Set<i32>, events: Seq<KeyEvent>, e: KeyEvent, k: i32)
    ensures
        held_after(start, events.push(e), k) == step_held(held_set(start, events), e).contains(k),
{
    let ev2 = events.push(e);
    let n = events.len() as int;
    let press = KeyEvent { key: k, action: KeyAction::Press };
    let rel = KeyEvent { key: k, action: KeyAction::Release };
    assert(ev2[n] == e);
    lemma_unreleased_push(events, e, k, 0);
    if e == press {
        assert(unreleased_from(ev2, k, n + 1));
        assert(last_pressed_at(ev2, k, n));
    } else {
        if exists|i: int| last_pressed_at(ev2, k, i) {
            let i = choose|i: int| last_pressed_at(ev2, k, i);
            assert(i != n);
            lemma_unreleased_push(events, e, k, i + 1);
            assert(ev2[i] == events[i]);
            assert(last_pressed_at(events, k, i));
        }
        if exists|i: int| last_pressed_at(events, k, i) {
            let i = choose|i: int| last_pressed_at(events, k, i);
            lemma_unreleased_push(events, e, k, i + 1);
            assert(ev2[i] == events[i]);
            if e != rel {
                assert(last_pressed_at(ev2, k, i));
            }
        }
    }
}

/// Appending an event to a sequence moves the held set by that event alone.
pub proof fn lemma_held_set_push(start: Set<i32>, events: Seq<KeyEvent>, e: KeyEvent)
    ensures
        held_set(start, events.push(e)) == step_held(held_set(start, events), e),
{
    assert forall|k: i32|
        held_set(start, events.push(e)).contains(k) == step_held(held_set(start, events), e).contains(k) by {
        lemma_held_after_push(start, events, e, k);
    }
    assert(held_set(start, events.push(e)) =~= step_held(held_set(start, events), e));
}

/// No events leave the held set as it was.
pub proof fn lemma_held_set_empty(start: Set<i32>)
    ensures
        held_set(start, Seq::<KeyEvent>::empty()) == start,
{
    assert(held_set(start, Seq::<KeyEvent>::empty()) =~= start);
}

/// The set of keys currently held down.
pub struct KeySet {
    keys: Vec<i32>,
}

impl View for KeySet {
    type V = Set<i32>;

    closed spec fn view(&self) -> Set<i32> {
        self.keys@.to_set()
    }
}

impl KeySet {
    /// No key is stored twice.
    pub closed spec fn wf(&self) -> bool {
        self.keys@.no_duplicates()
    }

    /// The empty set.
    pub fn new() -> (r: KeySet)
        ensures
            r.wf(),
            r@ == Set::<i32>::empty(),
    {
        let r = KeySet { keys: Vec::new() };
        assert(r.keys@ =~= Seq::<i32>::empty());
        r
    }

    /// Whether `k` is held.
    pub fn contains(&self, k: i32) -> (r: bool)
        requires
            self.wf(),
        ensures
            r == self@.contains(k),
    {
        let mut i: usize = 0;
        while i < self.keys.len()
            invariant
                0 <= i <= self.keys.len(),
                forall|j: int| 0 <= j < i ==> self.keys@[j] != k,
            decreases self.keys.len() - i,
        {
            if self.keys[i] == k {
                assert(self.keys@.contains(k));
                return true;
            }
            i = i + 1;
        }
        proof {
            if self.keys@.to_set().contains(k) {
                let j = choose|j: int| 0 <= j < self.keys@.len() && self.keys@[j] == k;
                assert(self.keys@[j] == k);
            }
        }
        false
    }

    /// Marks `k` as held; pressing a held key again changes nothing.
    pub fn press(&mut self, k: i32)
        requires
            old(self).wf(),
        ensures
            final(self).wf(),
            final(self)@ == old(self)@.insert(k),
    {
        if !self.contains(k) {
            proof {
                assert(!self.keys@.contains(k));
            }
            self.keys.push(k);
            proof {
                assert(self.keys@.drop_last() =~= old(self).keys@);
                assert(self.keys@ =~= old(self).keys@ + seq![k]);
                Seq::lemma_to_set_insert_commutes(old(self).keys@, k);
            }
        } else {
            assert(old(self)@.insert(k) =~= old(self)@);
        }
    }

    /// Marks `k` as no longer held; releasing a key that is not held changes nothing.
    pub fn release(&mut self, k: i32)
        requires
            old(self).wf(),
        ensures
            final(self).wf(),
            final(self)@ == old(self)@.remove(k),
    {
        let mut i: usize = 0;
        while i < self.keys.len()
            invariant
                0 <= i <= self.keys.len(),
                self.keys == old(self).keys,
                self.keys@.no_duplicates(),
                forall|j: int| 0 <= j < i ==> self.keys@[j] != k,
            decreases self.keys.len() - i,
        {
            if self.keys[i] == k {
                let ghost before = self.keys@;
                self.keys.remove(i);
                proof {
                    assert(self.keys@ =~= before.remove(i as int));
                    assert forall|a: int, b: int|
                        0 <= a < self.keys@.len() && 0 <= b < self.keys@.len() && a != b
                            implies self.keys@[a] != self.keys@[b] by {
                        let a2 = if a < i { a } else { a + 1 };
                        let b2 = if b < i { b } else { b + 1 };
                        assert(before.no_duplicates());
                        assert(a2 != b2);
                        assert(before[a2] == self.keys@[a] && before[b2] == self.keys@[b]);
                        assert(before[a2] != before[b2]);
                    }
                    assert forall|x: i32| self@.contains(x) <==> old(self)@.remove(k).contains(x) by {
                        if self@.contains(x) {
                            let j = choose|j: int| 0 <= j < self.keys@.len() && self.keys@[j] == x;
                            let j2 = if j < i { j } else { j + 1 };
                            assert(before[j2] == x);
                            assert(before[i as int] == k);
                            assert(before.no_duplicates());
                            assert(j2 != i);
                            assert(x != k);
                        }
                        if old(self)@.remove(k).contains(x) {
                            let j = choose|j: int| 0 <= j < before.len() && before[j] == x;
                            assert(j != i);
                            if j < i {
                                assert(self.keys@[j] == x);
                            } else {
                                assert(self.keys@[j - 1] == x);
                            }
                        }
                    }
                    assert(self@ =~= old(self)@.remove(k));
                }
                return;
            }
            i = i + 1;
        }
        proof {
            assert(!old(self)@.contains(k)) by {
                if old(self)@.contains(k) {
                    let j = choose|j: int| 0 <= j < self.keys@.len() && self.keys@[j] == k;
                }
            }
            assert(old(self)@.remove(k) =~= old(self)@);
        }
    }

    /// Applies one key event.
    pub fn apply(&mut self, e: KeyEvent)
        requires
            old(self).wf(),
        ensures
            final(self).wf(),
            final(self)@ == step_held(old(self)@, e),
    {
        match e.action {
            KeyAction::Press => self.press(e.key),
            KeyAction::Release => self.release(e.key),
            KeyAction::Repeat => {},
        }
    }

    /// Applies key events in order. Afterwards exactly the keys are held that
    /// were held or pressed and have not been released since.
    pub fn apply_all(&mut self, events: &Vec<KeyEvent>)
        requires
            old(self).wf(),
        ensures
            final(self).wf(),
            final(self)@ == held_set(old(self)@, events@),
    {
        let ghost start = self@;
        let mut i: usize = 0;
        proof {
            lemma_held_set_empty(start);
            assert(events@.take(0) =~= Seq::<KeyEvent>::empty());
        }
        while i < events.len()
            invariant
                0 <= i <= events.len(),
                self.wf(),
                self@ == held_set(start, events@.take(i as int)),
            decreases events.len() - i,
        {
            proof {
                assert(events@.take(i as int + 1) =~= events@.take(i as int).push(events@[i as int]));
                lemma_held_set_push(start, events@.take(i as int), events@[i as int]);
            }
            self.apply(events[i]);
            i = i + 1;
        }
        assert(events@.take(i as int) =~= events@);
    }
}

} // verus!
