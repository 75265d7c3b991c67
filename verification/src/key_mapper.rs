//! Key input model and the chord-to-request mapping.
//!
//! Terminal input arrives as plain key events; the mapper collects pending
//! keys and fires a request when the tail of the pending keys spells a
//! bound chord.
use vstd::prelude::*;

use crate::rpc::Request;

verus! {

/// The key pressed, without modifiers.
#[derive(Clone, Copy, PartialEq, Eq, Structural)]
pub enum KeyCode {
    /// Arrow up.
    Up,
    /// Arrow down.
    Down,
    /// Arrow left.
    Left,
    /// Arrow right.
    Right,
    /// A printable character.
    Char(char),
    /// The enter key.
    Enter,
    /// The backspace key.
    Backspace,
    /// The escape key.
    Esc,
    /// Any key this model does not name.
    Other,
}

/// One key press or release, with modifiers.
#[derive(Clone, Copy, PartialEq, Eq, Structural)]
pub struct KeyEvent {
    /// The key.
    pub code: KeyCode,
    /// Whether alt was held.
    pub alt: bool,
    /// Whether control was held.
    pub ctrl: bool,
    /// Whether this is a press (as opposed to a release or repeat).
    pub press: bool,
}

/// A terminal event, decoded to plain values.
#[derive(Clone, Copy, PartialEq, Eq, Structural)]
pub enum TerminalEvent {
    /// A key event.
    Key(KeyEvent),
    /// The terminal gained focus.
    FocusGained,
    /// The terminal lost focus.
    FocusLost,
    /// A mouse event.
    Mouse,
    /// Pasted text arrived.
    Paste,
    /// The terminal was resized.
    Resize(u16, u16),
}

/// A key with its modifiers, as stored in chords.
#[derive(Clone, Copy, PartialEq, Eq, Structural)]
pub struct Key {
    /// The key.
    pub code: KeyCode,
    /// Whether alt must be held.
    pub alt: bool,
    /// Whether control must be held.
    pub ctrl: bool,
}

impl Key {
    /// A bare character key.
    pub fn from_char(c: char) -> (r: Self)
        ensures
            r == (Key { code: KeyCode::Char(c), alt: false, ctrl: false }),
    {
        Self::new(KeyCode::Char(c))
    }

    /// A bare key.
    pub fn new(code: KeyCode) -> (r: Self)
        ensures
            r == (Key { code, alt: false, ctrl: false }),
    {
        Key { code, alt: false, ctrl: false }
    }

    /// The same key with alt required.
    pub fn alt(self) -> (r: Self)
        ensures
            r == (Key { alt: true, ..self }),
    {
        Key { code: self.code, alt: true, ctrl: self.ctrl }
    }

    /// The same key with control required.
    pub fn ctrl(self) -> (r: Self)
        ensures
            r == (Key { ctrl: true, ..self }),
    {
        Key { code: self.code, alt: self.alt, ctrl: true }
    }

    /// The key of an event, keeping its modifiers.
    pub fn of_event(event: &KeyEvent) -> (r: Self)
        ensures
            r == (Key { code: event.code, alt: event.alt, ctrl: event.ctrl }),
    {
        Key { code: event.code, alt: event.alt, ctrl: event.ctrl }
    }
}

/// Index of the last chord equal to `keys`, or `-1` when none is bound.
/// Later bindings shadow earlier ones, as a map insert would.
pub open spec fn chord_index(ms: Seq<(Vec<Key>, Request)>, keys: Seq<Key>) -> int
    decreases ms.len(),
{
    if ms.len() == 0 {
        -1
    } else if ms.last().0@ == keys {
        ms.len() - 1
    } else {
        chord_index(ms.drop_last(), keys)
    }
}

proof fn lemma_chord_index_props(ms: Seq<(Vec<Key>, Request)>, keys: Seq<Key>)
    ensures
        ({
            let r = chord_index(ms, keys);
            if r >= 0 {
                r < ms.len() && ms[r].0@ == keys && (forall|j: int|
                    r < j < ms.len() ==> (#[trigger] ms[j]).0@ != keys)
            } else {
                forall|j: int| 0 <= j < ms.len() ==> (#[trigger] ms[j]).0@ != keys
            }
        }),
    decreases ms.len(),
{
    if ms.len() == 0 {
    } else if ms.last().0@ == keys {
        assert forall|j: int| ms.len() - 1 < j < ms.len() implies (#[trigger] ms[j]).0@ != keys by {
            assert(false);
        }
    } else {
        let m1 = ms.drop_last();
        lemma_chord_index_props(m1, keys);
        let r1 = chord_index(m1, keys);
        if r1 >= 0 {
            assert(ms[r1] == m1[r1]);
            assert forall|j: int| r1 < j < ms.len() implies (#[trigger] ms[j]).0@ != keys by {
                if j < ms.len() - 1 {
                    assert(ms[j] == m1[j]);
                }
            }
        } else {
            assert forall|j: int| 0 <= j < ms.len() implies (#[trigger] ms[j]).0@ != keys by {
                if j < ms.len() - 1 {
                    assert(ms[j] == m1[j]);
                }
            }
        }
    }
}

/// Smallest start offset whose tail of the pending keys is a bound chord,
/// or `-1` when no tail is bound.
pub open spec fn first_bound_tail(ms: Seq<(Vec<Key>, Request)>, pk: Seq<Key>, i: int) -> int
    decreases pk.len() - i,
    when 0 <= i <= pk.len()
{
    if i >= pk.len() {
        -1
    } else if chord_index(ms, pk.skip(i)) >= 0 {
        i
    } else {
        first_bound_tail(ms, pk, i + 1)
    }
}

/// Maps key chords to editor requests.
pub struct KeyMapper {
    mapping: Vec<(Vec<Key>, Request)>,
    pending_keys: Vec<Key>,
}

impl KeyMapper {
    /// The bound chords, in binding order.
    pub closed spec fn bindings(&self) -> Seq<(Vec<Key>, Request)> {
        self.mapping@
    }

    /// The keys collected so far towards a chord.
    pub closed spec fn pending(&self) -> Seq<Key> {
        self.pending_keys@
    }

    /// The default key bindings.
    pub fn new() -> (r: Self)
        ensures
            r.pending().len() == 0,
            r.bindings().len() == 13,
    {
        let mut this = KeyMapper { mapping: Vec::new(), pending_keys: Vec::new() };
        let mut chord: Vec<Key> = Vec::new();
        chord.push(Key::from_char('x').ctrl());
        chord.push(Key::from_char('s').ctrl());
        this.add(chord, Request::save());

        let mut chord: Vec<Key> = Vec::new();
        chord.push(Key::from_char('a').ctrl());
        this.add(chord, Request::move_to(None, Some(0)));

        let mut chord: Vec<Key> = Vec::new();
        chord.push(Key::from_char('e').ctrl());
        this.add(chord, Request::move_to(None, Some(u32::MAX)));

        let mut chord: Vec<Key> = Vec::new();
        chord.push(Key::from_char('b').ctrl());
        this.add(chord, Request::move_delta(0, -1));

        let mut chord: Vec<Key> = Vec::new();
        chord.push(Key::from_char('f').ctrl());
        this.add(chord, Request::move_delta(0, 1));

        let mut chord: Vec<Key> = Vec::new();
        chord.push(Key::from_char('p').ctrl());
        this.add(chord, Request::move_delta(-1, 0));

        let mut chord: Vec<Key> = Vec::new();
        chord.push(Key::from_char('n').ctrl());
        this.add(chord, Request::move_delta(1, 0));

        let mut chord: Vec<Key> = Vec::new();
        chord.push(Key::from_char('w').alt());
        this.add(chord, Request::copy());

        let mut chord: Vec<Key> = Vec::new();
        chord.push(Key::from_char('y').ctrl());
        this.add(chord, Request::paste());

        let mut chord: Vec<Key> = Vec::new();
        chord.push(Key::from_char(' ').ctrl());
        this.add(chord, Request::mark());

        let mut chord: Vec<Key> = Vec::new();
        chord.push(Key::from_char('x').ctrl());
        chord.push(Key::from_char('c').ctrl());
        this.add(chord, Request::exit());

        let mut chord: Vec<Key> = Vec::new();
        chord.push(Key::new(KeyCode::Esc));
        this.add(chord, Request::exit());

        let mut chord: Vec<Key> = Vec::new();
        chord.push(Key::from_char('g').ctrl());
        this.add(chord, Request::cancel());

        this
    }

    /// Binds a chord, shadowing any earlier binding of the same chord.
    pub fn add(&mut self, keys: Vec<Key>, request: Request)
        ensures
            final(self).bindings() == old(self).bindings().push((keys, request)),
            final(self).pending() == old(self).pending(),
    {
        self.mapping.push((keys, request));
    }

    /// Collects one key and fires the request of the shortest bound tail
    /// of the pending keys, if any; firing clears the pending keys.
    pub fn handle_input(&mut self, event: &KeyEvent) -> (r: Option<Request>)
        ensures
            final(self).bindings() == old(self).bindings(),
            ({
                let pk = old(self).pending().push(
                    Key { code: event.code, alt: event.alt, ctrl: event.ctrl },
                );
                let fm = first_bound_tail(old(self).bindings(), pk, 0);
                match r {
                    None => fm < 0 && final(self).pending() == pk,
                    Some(req) => fm >= 0 && final(self).pending().len() == 0
                        && crate::rpc::req_eq(req, old(self).bindings()[chord_index(
                        old(self).bindings(),
                        pk.skip(fm),
                    )].1),
                }
            }),
    {
        self.pending_keys.push(Key::of_event(event));
        let ghost pk = self.pending_keys@;
        let ghost ms = self.mapping@;
        let mut i: usize = 0;
        while i < self.pending_keys.len()
            invariant
                0 <= i <= pk.len(),
                pk == self.pending_keys@,
                ms == self.mapping@,
                ms == old(self).bindings(),
                pk == old(self).pending().push(
                    Key { code: event.code, alt: event.alt, ctrl: event.ctrl },
                ),
                first_bound_tail(ms, pk, 0) == first_bound_tail(ms, pk, i as int),
        decreases pk.len() - i,
        {
            match self.lookup_tail(i) {
                Some(req) => {
                    proof {
                        assert(first_bound_tail(ms, pk, i as int) == i);
                    }
                    self.pending_keys = Vec::new();
                    return Some(req);
                },
                None => {},
            }
            i = i + 1;
        }
        None
    }

    /// Looks up the chord equal to the pending keys from `i` on and
    /// returns a copy of its request.
    fn lookup_tail(&self, i: usize) -> (r: Option<Request>)
        requires
            i <= self.pending().len(),
        ensures
            ({
                let ci = chord_index(self.bindings(), self.pending().skip(i as int));
                match r {
                    None => ci < 0,
                    Some(req) => ci >= 0 && crate::rpc::req_eq(req, self.bindings()[ci].1),
                }
            }),
    {
        let ghost tail = self.pending().skip(i as int);
        let mut j: usize = self.mapping.len();
        while j > 0
            invariant
                j <= self.bindings().len(),
                tail == self.pending().skip(i as int),
                i <= self.pending().len(),
                forall|k: int| j <= k < self.bindings().len()
                    ==> (#[trigger] self.bindings()[k]).0@ != tail,
        decreases j,
        {
            j = j - 1;
            if self.chord_matches_tail(j, i) {
                proof {
                    lemma_chord_index_props(self.bindings(), tail);
                    let ci = chord_index(self.bindings(), tail);
                    if ci < 0 {
                        assert(self.bindings()[j as int].0@ != tail);
                        assert(false);
                    }
                    if ci < j {
                        assert(self.bindings()[j as int].0@ != tail);
                        assert(false);
                    }
                    if ci > j {
                        assert(self.bindings()[ci].0@ != tail);
                        assert(false);
                    }
                }
                return Some(crate::rpc::clone_request(&self.mapping[j].1));
            }
        }
        proof {
            lemma_chord_index_props(self.bindings(), tail);
            let ci = chord_index(self.bindings(), tail);
            if ci >= 0 {
                assert(self.bindings()[ci].0@ != tail);
                assert(false);
            }
        }
        None
    }

    /// Whether chord `j` equals the pending keys from `i` on.
    fn chord_matches_tail(&self, j: usize, i: usize) -> (r: bool)
        requires
            j < self.bindings().len(),
            i <= self.pending().len(),
        ensures
            r == (self.bindings()[j as int].0@ == self.pending().skip(i as int)),
    {
        let ghost tail = self.pending().skip(i as int);
        let chord: &Vec<Key> = &self.mapping[j].0;
        let pending_len = self.pending_keys.len();
        if chord.len() != pending_len - i {
            return false;
        }
        let mut k: usize = 0;
        while k < chord.len()
            invariant
                k <= chord@.len(),
                chord@ == self.bindings()[j as int].0@,
                tail == self.pending().skip(i as int),
                i <= self.pending().len(),
                pending_len == self.pending().len(),
                chord@.len() == tail.len(),
                forall|t: int| 0 <= t < k ==> (#[trigger] chord@[t]) == tail[t],
        decreases chord@.len() - k,
        {
            let a: Key = chord[k];
            let b: Key = self.pending_keys[i + k];
            assert(tail[k as int] == self.pending()[i + k]);
            if !(a == b) {
                return false;
            }
            k = k + 1;
        }
        proof {
            assert(chord@ =~= tail);
        }
        true
    }
}

} // verus!
