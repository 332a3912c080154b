//! Decision logic of the collaborating watchers.
//!
//! The jack watcher is an edge detector over headphone-switch reports; the
//! button watcher maps key events to transport commands while a chord key is
//! held.  Both decide from plain values; reading the input devices and
//! invoking the controller stay outside the library.

use vstd::prelude::*;

verus! {

/// What the jack watcher tells the controller.
#[derive(Clone, Copy, Debug, PartialEq, Eq, Structural)]
pub enum JackAction {
    Start,
    Stop,
}

/// One switch report: the new remembered state and the action fired on a
/// change.  Only an edge acts; a report of the known state is silent.
pub fn jack_edge(last: Option<bool>, plugged: bool) -> (r: (Option<bool>, Option<JackAction>))
    ensures
        r.0 == Some(plugged),
        r.1 == if last != Some(plugged) {
            Some(
                if plugged {
                    JackAction::Start
                } else {
                    JackAction::Stop
                },
            )
        } else {
            None::<JackAction>
        },
{
    let fire = match last {
        Some(p) => p != plugged,
        None => true,
    };
    if fire {
        if plugged {
            (Some(plugged), Some(JackAction::Start))
        } else {
            (Some(plugged), Some(JackAction::Stop))
        }
    } else {
        (Some(plugged), None)
    }
}

/// Whether attaching fires an initial start: only when asked to and the
/// switch is already reported as plugged.
pub fn initial_action(fire_initial: bool, current: Option<bool>) -> (r: Option<JackAction>)
    ensures
        r == if fire_initial && current == Some(true) {
            Some(JackAction::Start)
        } else {
            None::<JackAction>
        },
{
    if fire_initial {
        match current {
            Some(true) => Some(JackAction::Start),
            _ => None,
        }
    } else {
        None
    }
}

/// What the button watcher tells the controller; a seek step is in signed
/// seconds.
#[derive(Clone, Copy, Debug, PartialEq, Eq, Structural)]
pub enum Transport {
    Prev,
    Next,
    SeekBy(i64),
}

/// The key codes the watcher reacts to and the two seek step sizes.
#[derive(Clone, Copy)]
pub struct ButtonMap {
    pub prev: u16,
    pub next: u16,
    pub seek_back_small: u16,
    pub seek_fwd_small: u16,
    pub seek_back_big: u16,
    pub seek_fwd_big: u16,
    pub menu: u16,
    pub small_step: i64,
    pub big_step: i64,
}

impl ButtonMap {
    /// Seek steps are whole non-negative seconds.
    pub open spec fn wf(&self) -> bool {
        0 <= self.small_step && 0 <= self.big_step
    }
}

/// The command bound to a key, tried in a fixed order; the chord key itself
/// is bound to nothing.
pub open spec fn action_for(m: ButtonMap, code: u16) -> Option<Transport> {
    if code == m.prev {
        Some(Transport::Prev)
    } else if code == m.next {
        Some(Transport::Next)
    } else if code == m.seek_back_small {
        Some(Transport::SeekBy((-m.small_step) as i64))
    } else if code == m.seek_fwd_small {
        Some(Transport::SeekBy(m.small_step))
    } else if code == m.seek_back_big {
        Some(Transport::SeekBy((-m.big_step) as i64))
    } else if code == m.seek_fwd_big {
        Some(Transport::SeekBy(m.big_step))
    } else {
        None
    }
}

/// What one key event does to the held set and which command it fires: a
/// press is remembered and, with the chord key held, acts; auto-repeat acts
/// the same way without changing the set; a release only forgets the key.
pub open spec fn button_event(held: Set<u16>, m: ButtonMap, code: u16, value: i32) -> (
    Set<u16>,
    Option<Transport>,
) {
    if value == 1 {
        let h2 = held.insert(code);
        (
            h2,
            if h2.contains(m.menu) && code != m.menu {
                action_for(m, code)
            } else {
                None
            },
        )
    } else if value == 2 {
        (
            held,
            if held.contains(m.menu) && code != m.menu {
                action_for(m, code)
            } else {
                None
            },
        )
    } else if value == 0 {
        (held.remove(code), None)
    } else {
        (held, None)
    }
}

/// The keys currently held on one device.
pub struct HeldButtons {
    codes: Vec<u16>,
}

impl View for HeldButtons {
    type V = Set<u16>;

    closed spec fn view(&self) -> Set<u16> {
        Set::new(|c: u16| self.codes@.contains(c))
    }
}

impl HeldButtons {
    pub closed spec fn wf(&self) -> bool {
        forall|i: int, j: int| 0 <= i < j < self.codes@.len() ==> self.codes@[i] != self.codes@[j]
    }

    pub fn new() -> (h: HeldButtons)
        ensures
            h.wf(),
            h@ == Set::<u16>::empty(),
    {
        let h = HeldButtons { codes: Vec::new() };
        proof {
            assert(h@ =~= Set::<u16>::empty());
        }
        h
    }

    fn position_of(&self, code: u16) -> (r: Option<usize>)
        ensures
            match r {
                Some(i) => 0 <= i < self.codes@.len() && self.codes@[i as int] == code,
                None => forall|i: int| 0 <= i < self.codes@.len() ==> self.codes@[i] != code,
            },
    {
        let mut i: usize = 0;
        while i < self.codes.len()
            invariant
                0 <= i <= self.codes@.len(),
                forall|j: int| 0 <= j < i ==> self.codes@[j] != code,
            decreases self.codes@.len() - i,
        {
            if self.codes[i] == code {
                return Some(i);
            }
            i += 1;
        }
        None
    }

    /// Whether a key is currently held.
    pub fn contains(&self, code: u16) -> (r: bool)
        ensures
            r == self@.contains(code),
    {
        match self.position_of(code) {
            Some(_) => true,
            None => {
                assert(!self.codes@.contains(code));
                false
            },
        }
    }

    /// Remembers a pressed key.
    pub fn insert(&mut self, code: u16)
        requires
            old(self).wf(),
        ensures
            final(self).wf(),
            final(self)@ == old(self)@.insert(code),
    {
        match self.position_of(code) {
            Some(_) => {
                proof {
                    assert(old(self)@.contains(code));
                    assert(self@ =~= old(self)@.insert(code));
                }
            },
            None => {
                self.codes.push(code);
                proof {
                    let oldc = old(self).codes@;
                    let newc = self.codes@;
                    assert(newc == oldc.push(code));
                    assert forall|c: u16| #[trigger] self@.contains(c) implies old(self)@.insert(
                        code,
                    ).contains(c) by {
                        let i = choose|i: int| 0 <= i < newc.len() && newc[i] == c;
                        if i < oldc.len() {
                            assert(oldc[i] == c);
                        }
                    }
                    assert forall|c: u16| old(self)@.insert(code).contains(c) implies #[trigger] self@.contains(
                        c,
                    ) by {
                        if c == code {
                            assert(newc[newc.len() - 1] == c);
                        } else {
                            let i = choose|i: int| 0 <= i < oldc.len() && oldc[i] == c;
                            assert(newc[i] == c);
                        }
                    }
                    assert(self@ =~= old(self)@.insert(code));
                }
            },
        }
    }

    /// Forgets a released key.
    pub fn remove(&mut self, code: u16)
        requires
            old(self).wf(),
        ensures
            final(self).wf(),
            final(self)@ == old(self)@.remove(code),
    {
        match self.position_of(code) {
            Some(i) => {
                self.codes.remove(i);
                proof {
                    let oldc = old(self).codes@;
                    let newc = self.codes@;
                    assert(newc == oldc.remove(i as int));
                    assert(final(self).wf()) by {
                        assert(forall|x: int|
                            0 <= x < newc.len() ==> #[trigger] newc[x] == if x < i {
                                oldc[x]
                            } else {
                                oldc[x + 1]
                            });
                    }
                    assert forall|c: u16| #[trigger] self@.contains(c) implies old(self)@.remove(
                        code,
                    ).contains(c) by {
                        let x = choose|x: int| 0 <= x < newc.len() && newc[x] == c;
                        if x < i {
                            assert(oldc[x] == c);
                            assert(c != code);
                        } else {
                            assert(oldc[x + 1] == c);
                            assert(c != code);
                        }
                    }
                    assert forall|c: u16| old(self)@.remove(code).contains(c) implies #[trigger] self@.contains(
                        c,
                    ) by {
                        let x = choose|x: int| 0 <= x < oldc.len() && oldc[x] == c;
                        assert(x != i);
                        if x < i {
                            assert(newc[x] == c);
                        } else {
                            assert(newc[x - 1] == oldc[x]);
                        }
                    }
                    assert(self@ =~= old(self)@.remove(code));
                }
            },
            None => {
                proof {
                    assert(!old(self)@.contains(code));
                    assert(self@ =~= old(self)@.remove(code));
                }
            },
        }
    }
}

/// Decides one key event: exactly `button_event` over the held set.
pub fn handle_key_event(held: &mut HeldButtons, map: &ButtonMap, code: u16, value: i32) -> (r:
    Option<Transport>)
    requires
        old(held).wf(),
        map.wf(),
    ensures
        final(held).wf(),
        (final(held)@, r) == button_event(old(held)@, *map, code, value),
{
    if value == 1 {
        held.insert(code);
        if held.contains(map.menu) && code != map.menu {
            action_dispatch(map, code)
        } else {
            None
        }
    } else if value == 2 {
        if held.contains(map.menu) && code != map.menu {
            action_dispatch(map, code)
        } else {
            None
        }
    } else if value == 0 {
        held.remove(code);
        None
    } else {
        None
    }
}

/// The command bound to a key: exactly `action_for`.
fn action_dispatch(map: &ButtonMap, code: u16) -> (r: Option<Transport>)
    requires
        map.wf(),
    ensures
        r == action_for(*map, code),
{
    if code == map.prev {
        Some(Transport::Prev)
    } else if code == map.next {
        Some(Transport::Next)
    } else if code == map.seek_back_small {
        Some(Transport::SeekBy(0 - map.small_step))
    } else if code == map.seek_fwd_small {
        Some(Transport::SeekBy(map.small_step))
    } else if code == map.seek_back_big {
        Some(Transport::SeekBy(0 - map.big_step))
    } else if code == map.seek_fwd_big {
        Some(Transport::SeekBy(map.big_step))
    } else {
        None
    }
}

} // verus!
