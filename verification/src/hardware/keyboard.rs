//! The keyboard's buffer: keystrokes wait in it, in the order in which they
//! came, until they are read.
use vstd::prelude::*;
use std::collections::VecDeque;

verus! {

/// The keyboard. Until it is initialized it has no buffer, drops every
/// keystroke and has nothing to read.
pub struct X86Keyboard {
    key_buffer: Option<VecDeque<u8>>,
}

impl View for X86Keyboard {
    type V = Option<Seq<u8>>;

    /// The keystrokes that wait, the oldest first; `None` before the keyboard
    /// is initialized.
    closed spec fn view(&self) -> Option<Seq<u8>> {
        match self.key_buffer {
            Some(buffer) => Some(buffer@),
            None => None,
        }
    }
}

impl X86Keyboard {
    /// A keyboard without a buffer.
    pub fn uninitialized() -> (keyboard: X86Keyboard)
        ensures
            keyboard@ is None,
    {
        X86Keyboard { key_buffer: None }
    }

    /// Gives the keyboard an empty buffer. Keystrokes that waited are lost.
    pub fn initialize(&mut self)
        ensures
            final(self)@ == Some(Seq::<u8>::empty()),
    {
        self.key_buffer = Some(VecDeque::with_capacity(16));
    }

    /// Puts `key` behind the keystrokes that wait.
    pub fn push_keystroke(&mut self, key: u8)
        ensures
            final(self)@ == match old(self)@ {
                Some(keys) => Some(keys.push(key)),
                None => None,
            },
    {
        match &mut self.key_buffer {
            Some(buffer) => buffer.push_back(key),
            None => {},
        }
    }

    /// Number of keystrokes that wait.
    pub fn available(&self) -> (count: usize)
        ensures
            count == match self@ {
                Some(keys) => keys.len(),
                None => 0,
            },
    {
        match &self.key_buffer {
            Some(buffer) => buffer.len(),
            None => 0,
        }
    }

    /// Takes the oldest keystroke that waits, if there is one.
    pub fn read(&mut self) -> (key: Option<u8>)
        ensures
            match old(self)@ {
                Some(keys) => if keys.len() > 0 {
                    key == Some(keys[0]) && final(self)@ == Some(keys.skip(1))
                } else {
                    key is None && final(self)@ == old(self)@
                },
                None => key is None && final(self)@ is None,
            },
    {
        match &mut self.key_buffer {
            Some(buffer) => {
                let key = buffer.pop_front();
                proof {
                    if old(self)@->0.len() > 0 {
                        assert(buffer@ =~= old(self)@->0.skip(1));
                    }
                }
                key
            },
            None => None,
        }
    }
}

} // verus!
