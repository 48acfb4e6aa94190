//! Key events and keymaps: the host-extensibility example.  A keymap maps
//! input events to callable forms and travels through the language as an
//! opaque extension value; `parse_key` reads the key-description strings
//! used by the `define-key` builtin.

use vstd::prelude::*;

use crate::env::assoc_find;
use crate::errors::SyntaxError;
use crate::value::{Extension, Inner, ValueV};

verus! {

/// The modifier keys held during an event.
#[derive(Clone, Copy, Debug, PartialEq, Eq, Structural)]
pub struct EventModifiers {
    pub control: bool,
    pub shift: bool,
    pub alt: bool,
}

impl EventModifiers {
    /// No modifiers held.
    pub fn new() -> (r: EventModifiers)
        ensures
            r == (EventModifiers { control: false, shift: false, alt: false }),
    {
        EventModifiers { control: false, shift: false, alt: false }
    }
}

/// A basic input event, before modifiers.
#[derive(Clone, Copy, Debug, PartialEq, Eq, Structural)]
pub enum BasicEvent {
    Char(char),
    Backspace,
    Del,
}

/// One input event: a basic event plus the modifiers held with it.
#[derive(Clone, Copy, Debug, PartialEq, Eq, Structural)]
pub struct Event {
    pub basic: BasicEvent,
    pub modifiers: EventModifiers,
}

impl Event {
    /// An event from its parts.
    pub fn new(basic: BasicEvent, modifiers: EventModifiers) -> (r: Event)
        ensures
            r == (Event { basic, modifiers }),
    {
        Event { basic, modifiers }
    }
}

/// What the host receives from its input loop.
#[derive(Clone, Copy, Debug, PartialEq, Eq, Structural)]
pub enum UserEvent {
    /// The frame asked to close.
    Quit,
    /// A key event.
    Key(Event),
}

impl UserEvent {
    /// A key event from its parts.
    pub fn new_keyevent(basic: BasicEvent, modifiers: EventModifiers) -> (r: UserEvent)
        ensures
            r == UserEvent::Key(Event { basic, modifiers }),
    {
        UserEvent::Key(Event { basic, modifiers })
    }
}

/// The event a key-description string names, given the modifiers read so
/// far.  `\C-`, `\S-` and `\M-` set control, shift and alt; `\\` is a
/// literal backslash key; any other escape is rejected; the first plain
/// character is the key, and nothing may follow it.
pub open spec fn spec_parse_key_from(s: Seq<char>, mods: EventModifiers) -> Result<
    Event,
    SyntaxError,
> decreases s.len() {
    if s.len() == 0 {
        Err(SyntaxError::EmptyKey)
    } else if s[0] == '\\' {
        if s.len() == 1 {
            Err(SyntaxError::TruncatedEscape)
        } else if s[1] == '\\' {
            if s.len() > 2 {
                Err(SyntaxError::TrailingKey)
            } else {
                Ok(Event { basic: BasicEvent::Char('\\'), modifiers: mods })
            }
        } else if s[1] == 'C' || s[1] == 'S' || s[1] == 'M' {
            if s.len() >= 3 && s[2] == '-' {
                spec_parse_key_from(
                    s.skip(3),
                    EventModifiers {
                        control: mods.control || s[1] == 'C',
                        shift: mods.shift || s[1] == 'S',
                        alt: mods.alt || s[1] == 'M',
                    },
                )
            } else {
                Err(SyntaxError::ExpectedDash)
            }
        } else {
            Err(SyntaxError::UnknownEscape(s[1]))
        }
    } else {
        if s.len() > 1 {
            Err(SyntaxError::TrailingKey)
        } else {
            Ok(Event { basic: BasicEvent::Char(s[0]), modifiers: mods })
        }
    }
}

/// The event a key-description string names.
pub open spec fn spec_parse_key(s: Seq<char>) -> Result<Event, SyntaxError> {
    spec_parse_key_from(s, EventModifiers { control: false, shift: false, alt: false })
}

/// A keymap: an ordered list of event-to-action bindings, newest first on
/// lookup, so a rebinding silently shadows the old entry.
#[derive(Debug)]
pub struct Keymap {
    pub map: Vec<(Event, Inner)>,
}

/// The views of a keymap's bindings.
pub open spec fn view_key_binds(l: Seq<(Event, Inner)>) -> Seq<(Event, ValueV)> {
    Seq::new(l.len(), |i: int| (l[i].0, l[i].1@))
}

impl View for Keymap {
    type V = Seq<(Event, ValueV)>;

    open spec fn view(&self) -> Seq<(Event, ValueV)> {
        view_key_binds(self.map@)
    }
}

impl Keymap {
    /// An empty keymap.
    pub fn new() -> (r: Keymap)
        ensures
            r@ == Seq::<(Event, ValueV)>::empty(),
    {
        let r = Keymap { map: Vec::new() };
        proof {
            assert(r@ =~= Seq::<(Event, ValueV)>::empty());
        }
        r
    }

    /// Bind an action to a key event, shadowing any earlier binding of the
    /// same event.
    pub fn define_key(&mut self, key: Event, def: Inner)
        ensures
            final(self)@ == old(self)@.push((key, def@)),
    {
        let ghost dv = def@;
        self.map.push((key, def));
        proof {
            assert(final(self)@ =~= old(self)@.push((key, dv)));
        }
    }

    /// Read a key-description string.
    pub fn parse_key(&self, key: &str) -> (r: Result<Event, SyntaxError>)
        ensures
            r == spec_parse_key(key@),
    {
        let chars = crate::text::str_to_chars(key);
        let n = chars.len();
        let mut mods = EventModifiers::new();
        let mut i: usize = 0;
        proof {
            assert(chars@.skip(0) =~= chars@);
        }
        while i < n
            invariant
                0 <= i <= n,
                n == chars@.len(),
                chars@ == key@,
                spec_parse_key(key@) == spec_parse_key_from(chars@.skip(i as int), mods),
            decreases n - i,
        {
            let ghost pre = chars@.skip(i as int);
            let c = chars[i];
            proof {
                assert(pre[0] == c);
                if i + 1 < n {
                    assert(pre[1] == chars@[i as int + 1]);
                }
            }
            if c == '\\' {
                if i + 1 >= n {
                    return Err(SyntaxError::TruncatedEscape);
                }
                let e = chars[i + 1];
                if e == '\\' {
                    if i + 2 < n {
                        return Err(SyntaxError::TrailingKey);
                    }
                    return Ok(Event { basic: BasicEvent::Char('\\'), modifiers: mods });
                }
                if e == 'C' || e == 'S' || e == 'M' {
                    if i + 2 >= n || chars[i + 2] != '-' {
                        proof {
                            if i + 2 < n {
                                assert(pre[2] == chars@[i as int + 2]);
                            }
                        }
                        return Err(SyntaxError::ExpectedDash);
                    }
                    proof {
                        assert(pre[2] == chars@[i as int + 2]);
                        assert(pre.skip(3) =~= chars@.skip(i as int + 3));
                    }
                    mods = EventModifiers {
                        control: mods.control || e == 'C',
                        shift: mods.shift || e == 'S',
                        alt: mods.alt || e == 'M',
                    };
                    i = i + 3;
                } else {
                    return Err(SyntaxError::UnknownEscape(e));
                }
            } else {
                if i + 1 < n {
                    return Err(SyntaxError::TrailingKey);
                }
                return Ok(Event { basic: BasicEvent::Char(c), modifiers: mods });
            }
        }
        proof {
            assert(chars@.skip(n as int) =~= Seq::<char>::empty());
        }
        Err(SyntaxError::EmptyKey)
    }

    /// Look a key event up, newest binding first.
    pub fn lookup_key(&self, key: &Event) -> (r: Option<Inner>)
        ensures
            match assoc_find(self@, *key) {
                Some(v) => r matches Some(rv) && rv@ == v,
                None => r is None,
            },
    {
        let mut i: usize = self.map.len();
        proof {
            assert(self@.take(self.map@.len() as int) =~= self@);
        }
        while i > 0
            invariant
                0 <= i <= self.map@.len(),
                assoc_find(self@, *key) == assoc_find(self@.take(i as int), *key),
            decreases i,
        {
            i = i - 1;
            proof {
                assert(self@.take(i as int + 1).last() == self@[i as int]);
                assert(self@.take(i as int + 1).drop_last() =~= self@.take(i as int));
            }
            if self.map[i].0 == *key {
                return Some(self.map[i].1.clone());
            }
        }
        proof {
            assert(self@.take(0) =~= Seq::<(Event, ValueV)>::empty());
        }
        None
    }

    /// Whether an extension value carries the keymap display name.
    pub fn is_keymap(obj: &Extension) -> (r: bool)
        ensures
            r == (obj@.name == "keymap"@),
    {
        crate::value::string_eq_str(&obj.name, "keymap")
    }
}

} // verus!
