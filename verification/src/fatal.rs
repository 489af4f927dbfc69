//! Showing the message of a fatal error.
//!
//! A fatal error may strike while the console is locked, so its message
//! cannot go through the console: it is written straight to the display,
//! cell by cell from the first cell on, white on black. The message stops
//! short of the last cell: what does not fit is dropped, and the caller is
//! told to halt.

use crate::memio::{stores, Access};
use crate::tty::vgatext::{
    cell_bytes, colored, writechar, Character, TextColor, VIDEO_MEMORY, WIDTH,
};
use vstd::prelude::*;

verus! {

/// How many cells a message may take: all but the last.
pub const LIMIT: usize = 1999;

/// How much of a message has been shown.
pub struct FatalScreen {
    shown: usize,
}

impl View for FatalScreen {
    type V = nat;

    closed spec fn view(&self) -> nat {
        self.shown as nat
    }
}

impl FatalScreen {
    #[verifier::type_invariant]
    spec fn inv(self) -> bool {
        self.shown <= LIMIT
    }

    /// Nothing shown yet: the message begins at the first cell.
    pub fn new() -> (screen: FatalScreen)
        ensures
            screen@ == 0,
    {
        FatalScreen { shown: 0 }
    }

    /// How many cells the message has taken so far.
    pub fn shown(&self) -> (shown: usize)
        ensures
            shown == self@,
            shown <= LIMIT,
    {
        proof {
            use_type_invariant(self);
        }
        self.shown
    }

    /// The stores that show the next piece of the message, and whether the
    /// caller has to halt.
    ///
    /// The characters of `piece` go to the cells that follow those shown
    /// already, white on black, as far as there is room below `LIMIT` cells.
    /// The caller has to halt when a character found no room.
    pub fn render(&mut self, piece: &[u8]) -> (out: (Vec<Access>, bool))
        ensures
            final(self)@ == if old(self)@ + piece@.len() <= LIMIT {
                old(self)@ + piece@.len()
            } else {
                LIMIT as nat
            },
            out.0@ == stores(
                VIDEO_MEMORY + 2 * old(self)@,
                cell_bytes(colored(piece@.take(final(self)@ - old(self)@), TextColor::default())),
            ),
            out.1 == (old(self)@ + piece@.len() > LIMIT),
    {
        proof {
            use_type_invariant(&*self);
        }
        let first: usize = self.shown;
        let ghost cells = colored(piece@, TextColor::default());
        let mut accesses: Vec<Access> = Vec::new();
        let mut k: usize = 0;
        while k < piece.len() && self.shown < LIMIT
            invariant
                k <= piece@.len(),
                self.shown == first + k,
                self.shown <= LIMIT,
                first == old(self).shown,
                cells == colored(piece@, TextColor::default()),
                accesses@ == stores(VIDEO_MEMORY + 2 * first, cell_bytes(cells.take(k as int))),
            decreases piece@.len() - k,
        {
            let i: usize = self.shown;
            let mut cell = writechar((i % WIDTH, i / WIDTH), Character::from_ascii(piece[k]));
            accesses.append(&mut cell);
            self.shown += 1;
            k += 1;
            assert(accesses@ =~= stores(
                VIDEO_MEMORY + 2 * first,
                cell_bytes(cells.take(k as int)),
            ));
        }
        assert(cells.take(k as int) =~= colored(piece@.take(k as int), TextColor::default()));
        (accesses, k < piece.len())
    }
}

} // verus!
