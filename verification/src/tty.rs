//! The buffered console.
//!
//! A `TTY` keeps the cells of the display in memory. Writing changes the
//! cells in memory only; the operations that concern the device return the
//! accesses that bring it up to date. A detached console never returns any.

pub mod console;
pub mod vgatext;

use crate::memio::{stores, Access};
use console::{
    appended_part, blanks, filled, lemma_put_run_cells, put_run, run_fits, run_index, skipped,
    Console,
};
use vgatext::{
    cell_address, cell_index, colored, on_screen, setup_accesses, vga_init, writechar, write_at,
    CELLS, HEIGHT, NEWLINE, SPACE, WIDTH,
};
use vstd::string::StringSliceAdditionalSpecFns;
pub use vgatext::Character;
pub use vgatext::Color;
pub use vgatext::TextColor;
use vstd::prelude::*;

verus! {

/// A console: `CELLS` cells, the place at which appended text goes on, and
/// the color of text that brings none.
pub struct TTY {
    /// where appended text goes on
    pos: usize,
    col: TextColor,
    buff: [Character; 2000],
    /// a copy never reaches the device
    is_copy: bool,
}

impl View for TTY {
    type V = Console;

    closed spec fn view(&self) -> Console {
        Console { pos: self.pos as nat, col: self.col, buff: self.buff@, is_copy: self.is_copy }
    }
}

impl TTY {
    #[verifier::type_invariant]
    spec fn inv(self) -> bool {
        self.pos <= CELLS
    }

    /// A blank console that is detached from the device. What is composed in
    /// it reaches the display by `sync` into the live console.
    pub fn new() -> (tty: TTY)
        ensures
            tty@ == Console::fresh(true),
            tty@.wf(),
    {
        let tty = TTY {
            pos: 0,
            col: TextColor::default(),
            buff: [Character::blank();2000],
            is_copy: true,
        };
        assert(tty@.buff =~= blanks(CELLS as nat));
        tty
    }

    /// A blank console that is bound to the device, of which a kernel makes
    /// one, and the accesses that set the device up for it: those of
    /// `vga_init`. The byte that the last of them returns goes to
    /// `vga_init_finish`.
    pub fn live() -> (live: (TTY, Vec<Access>))
        ensures
            live.0@ == Console::fresh(false),
            live.0@.wf(),
            live.1@ == setup_accesses(),
    {
        let accesses = vga_init();
        let tty = TTY {
            pos: 0,
            col: TextColor::default(),
            buff: [Character::blank();2000],
            is_copy: false,
        };
        assert(tty@.buff =~= blanks(CELLS as nat));
        (tty, accesses)
    }

    /// Columns and rows of the console.
    pub fn dimensions(&self) -> (d: (usize, usize))
        ensures
            d == (WIDTH, HEIGHT),
    {
        (WIDTH, HEIGHT)
    }

    /// The color of text that brings none.
    pub fn color(&self) -> (col: TextColor)
        ensures
            col == self@.col,
    {
        self.col
    }

    /// Sets the color of text that brings none.
    pub fn set_color(&mut self, col: TextColor) -> (ret: &mut Self)
        ensures
            ret@ == (Console { col, ..old(self)@ }),
            ret@.wf(),
            *final(self) == *final(ret),
    {
        proof {
            use_type_invariant(&*self);
        }
        self.col = col;
        self
    }

    /// Where appended text goes on: an index into the cells, row by row, or
    /// `CELLS` when the last cell has been written.
    pub fn continue_pos(&self) -> (pos: usize)
        ensures
            pos == self@.pos,
            pos <= CELLS,
    {
        proof {
            use_type_invariant(self);
        }
        self.pos
    }

    /// Column and row of the place where appended text goes on. When the
    /// last cell has been written, it is the first column of the row below
    /// the display.
    pub fn cursor(&self) -> (at: (usize, usize))
        ensures
            at.0 == self@.pos % WIDTH as nat,
            at.1 == self@.pos / WIDTH as nat,
            at.0 < WIDTH,
            at.1 <= HEIGHT,
            at.0 + at.1 * WIDTH == self@.pos,
    {
        proof {
            use_type_invariant(self);
        }
        (self.pos % WIDTH, self.pos / WIDTH)
    }

    /// Makes appended text go on at column `pos.0` of row `pos.1`, which has
    /// to be a cell of the display.
    pub fn set_pos(&mut self, pos: (usize, usize)) -> (ret: &mut Self)
        requires
            on_screen(pos),
        ensures
            ret@ == (Console { pos: cell_index(pos) as nat, ..old(self)@ }),
            ret@.wf(),
            *final(self) == *final(ret),
    {
        self.pos = pos.0 + pos.1 * WIDTH;
        self
    }

    /// Whether `cputstr` can write `str` from column `pos.0` of row `pos.1`
    /// onwards: whether the run begins and stays on the display.
    pub fn cputstr_fits(pos: (usize, usize), str: &[Character]) -> (fits: bool)
        ensures
            fits == (on_screen(pos) && run_fits(cell_index(pos), str@)),
    {
        if !(pos.0 < WIDTH && pos.1 < HEIGHT) {
            return false;
        }
        let start: usize = pos.0 + pos.1 * WIDTH;
        let mut at: usize = start;
        let mut k: usize = 0;
        while k < str.len()
            invariant
                k <= str@.len(),
                on_screen(pos),
                start == cell_index(pos),
                at == run_index(start as int, str@.take(k as int)),
                at <= CELLS,
                forall|j: int| 0 <= j < k ==> run_index(start as int, #[trigger] str@.take(j)) < CELLS,
            decreases str@.len() - k,
        {
            if at >= CELLS {
                return false;
            }
            proof {
                assert(str@.take(k + 1).drop_last() =~= str@.take(k as int));
            }
            if str[k].ascii() == NEWLINE {
                at = (at / WIDTH + 1) * WIDTH;
            } else {
                at += 1;
            }
            k += 1;
        }
        true
    }

    /// Writes the cells of `str` from column `pos.0` of row `pos.1` onwards,
    /// in memory only. A line feed is not written: the run goes on at the
    /// start of the next row. The run has to begin and to stay on the display.
    pub fn cputstr(&mut self, pos: (usize, usize), str: &[Character]) -> (ret: &mut Self)
        requires
            on_screen(pos),
            run_fits(cell_index(pos), str@),
        ensures
            ret@ == (Console {
                buff: put_run(old(self)@.buff, cell_index(pos), str@),
                ..old(self)@
            }),
            // each cell of the run but the line feed stands where it was met
            forall|k: int|
                0 <= k < str@.len() && str@[k].ascii != NEWLINE ==> ret@.buff[run_index(
                    cell_index(pos),
                    #[trigger] str@.take(k),
                )] == str@[k],
            // and every other cell is as it was
            forall|j: int|
                0 <= j < CELLS && (forall|k: int|
                    0 <= k < str@.len() && str@[k].ascii != NEWLINE ==> run_index(
                        cell_index(pos),
                        #[trigger] str@.take(k),
                    ) != j) ==> #[trigger] ret@.buff[j] == old(self)@.buff[j],
            ret@.wf(),
            *final(self) == *final(ret),
    {
        proof {
            use_type_invariant(&*self);
        }
        let start: usize = pos.0 + pos.1 * WIDTH;
        let mut at: usize = start;
        let mut k: usize = 0;
        while k < str.len()
            invariant
                k <= str@.len(),
                run_fits(start as int, str@),
                at == run_index(start as int, str@.take(k as int)),
                at <= CELLS,
                self.pos == old(self).pos,
                self.pos <= CELLS,
                self.col == old(self).col,
                self.is_copy == old(self).is_copy,
                self.buff@ == put_run(old(self).buff@, start as int, str@.take(k as int)),
            decreases str@.len() - k,
        {
            let b = str[k];
            proof {
                assert(str@.take(k + 1).drop_last() =~= str@.take(k as int));
                assert(str@.take(k + 1).last() == b);
            }
            if b.ascii() == NEWLINE {
                at = (at / WIDTH + 1) * WIDTH;
            } else {
                self.buff[at] = b;
                at += 1;
            }
            k += 1;
        }
        proof {
            assert(str@.take(k as int) =~= str@);
            lemma_put_run_cells(old(self).buff@, start as int, str@);
        }
        self
    }

    /// Whether `putstr` can write `str` from column `pos.0` of row `pos.1`
    /// onwards: whether the run begins and stays on the display.
    pub fn putstr_fits(&self, pos: (usize, usize), str: &[u8]) -> (fits: bool)
        ensures
            fits == (on_screen(pos) && run_fits(cell_index(pos), colored(str@, self@.col))),
    {
        if !(pos.0 < WIDTH && pos.1 < HEIGHT) {
            return false;
        }
        let ghost cells = colored(str@, self.col);
        let start: usize = pos.0 + pos.1 * WIDTH;
        let mut at: usize = start;
        let mut k: usize = 0;
        while k < str.len()
            invariant
                k <= str@.len(),
                cells == colored(str@, self.col),
                on_screen(pos),
                start == cell_index(pos),
                at == run_index(start as int, cells.take(k as int)),
                at <= CELLS,
                forall|j: int| 0 <= j < k ==> run_index(start as int, #[trigger] cells.take(j)) < CELLS,
            decreases str@.len() - k,
        {
            if at >= CELLS {
                return false;
            }
            proof {
                assert(cells.take(k + 1).drop_last() =~= cells.take(k as int));
            }
            if str[k] == NEWLINE {
                at = (at / WIDTH + 1) * WIDTH;
            } else {
                at += 1;
            }
            k += 1;
        }
        true
    }

    /// Writes the characters of `str`, in the console's color, from column
    /// `pos.0` of row `pos.1` onwards, in memory only. A line feed is not
    /// written: the run goes on at the start of the next row. The run has to
    /// begin and to stay on the display.
    pub fn putstr(&mut self, pos: (usize, usize), str: &[u8]) -> (ret: &mut Self)
        requires
            on_screen(pos),
            run_fits(cell_index(pos), colored(str@, old(self)@.col)),
        ensures
            ret@ == (Console {
                buff: put_run(
                    old(self)@.buff,
                    cell_index(pos),
                    colored(str@, old(self)@.col),
                ),
                ..old(self)@
            }),
            ({
                let cells = colored(str@, old(self)@.col);
                // each character of the run but the line feed stands where it was met
                &&& forall|k: int|
                    0 <= k < cells.len() && cells[k].ascii != NEWLINE ==> ret@.buff[run_index(
                        cell_index(pos),
                        #[trigger] cells.take(k),
                    )] == cells[k]
                // and every other cell is as it was
                &&& forall|j: int|
                    0 <= j < CELLS && (forall|k: int|
                        0 <= k < cells.len() && cells[k].ascii != NEWLINE ==> run_index(
                            cell_index(pos),
                            #[trigger] cells.take(k),
                        ) != j) ==> #[trigger] ret@.buff[j] == old(self)@.buff[j]
            }),
            ret@.wf(),
            *final(self) == *final(ret),
    {
        proof {
            use_type_invariant(&*self);
        }
        let ghost cells = colored(str@, self.col);
        let start: usize = pos.0 + pos.1 * WIDTH;
        let mut at: usize = start;
        let mut k: usize = 0;
        while k < str.len()
            invariant
                k <= str@.len(),
                cells == colored(str@, self.col),
                run_fits(start as int, cells),
                at == run_index(start as int, cells.take(k as int)),
                at <= CELLS,
                self.pos == old(self).pos,
                self.pos <= CELLS,
                self.col == old(self).col,
                self.is_copy == old(self).is_copy,
                self.buff@ == put_run(old(self).buff@, start as int, cells.take(k as int)),
            decreases str@.len() - k,
        {
            let b = str[k];
            proof {
                assert(cells.take(k + 1).drop_last() =~= cells.take(k as int));
                assert(cells.take(k + 1).last() == Character::new(b, self.col));
            }
            if b == NEWLINE {
                at = (at / WIDTH + 1) * WIDTH;
            } else {
                self.buff[at] = Character::new(b, self.col);
                at += 1;
            }
            k += 1;
        }
        proof {
            assert(cells.take(k as int) =~= cells);
            lemma_put_run_cells(old(self).buff@, start as int, cells);
        }
        self
    }

    /// Writes the cell `c` at column `pos.0` of row `pos.1`, in memory only.
    pub fn cput(&mut self, pos: (usize, usize), c: Character) -> (ret: &mut Self)
        requires
            on_screen(pos),
        ensures
            ret@ == (Console { buff: old(self)@.buff.update(cell_index(pos), c), ..old(self)@ }),
            ret@.wf(),
            *final(self) == *final(ret),
    {
        proof {
            use_type_invariant(&*self);
        }
        self.buff[pos.0 + pos.1 * WIDTH] = c;
        self
    }

    /// Writes the character `c`, in the console's color, at column `pos.0` of
    /// row `pos.1`, in memory only.
    pub fn put(&mut self, pos: (usize, usize), c: u8) -> (ret: &mut Self)
        requires
            on_screen(pos),
        ensures
            ret@ == (Console {
                buff: old(self)@.buff.update(cell_index(pos), Character::new(c, old(self)@.col)),
                ..old(self)@
            }),
            ret@.wf(),
            *final(self) == *final(ret),
    {
        proof {
            use_type_invariant(&*self);
        }
        let c = Character::new(c, self.color());
        self.buff[pos.0 + pos.1 * WIDTH] = c;
        self
    }

    /// Writes the cell `c` at column `pos.0` of row `pos.1` and returns the
    /// stores that show it there: a cheap way to keep the display up to date
    /// after a single write. A detached console returns none.
    pub fn cput_force(&mut self, pos: (usize, usize), c: Character) -> (accesses: Vec<Access>)
        requires
            on_screen(pos),
        ensures
            final(self)@ == (Console {
                buff: old(self)@.buff.update(cell_index(pos), c),
                ..old(self)@
            }),
            accesses@ == if old(self)@.is_copy {
                Seq::<Access>::empty()
            } else {
                stores(cell_address(pos), seq![c.ascii, c.color.0])
            },
            final(self)@.wf(),
    {
        proof {
            use_type_invariant(&*self);
        }
        self.buff[pos.0 + pos.1 * WIDTH] = c;
        if !self.is_copy {
            writechar(pos, c)
        } else {
            Vec::new()
        }
    }

    /// Writes the character `c`, in the console's color, at column `pos.0` of
    /// row `pos.1` and returns the stores that show it there. A detached
    /// console returns none.
    pub fn put_force(&mut self, pos: (usize, usize), c: u8) -> (accesses: Vec<Access>)
        requires
            on_screen(pos),
        ensures
            final(self)@ == (Console {
                buff: old(self)@.buff.update(cell_index(pos), Character::new(c, old(self)@.col)),
                ..old(self)@
            }),
            accesses@ == if old(self)@.is_copy {
                Seq::<Access>::empty()
            } else {
                stores(cell_address(pos), seq![c, old(self)@.col.0])
            },
            final(self)@.wf(),
    {
        proof {
            use_type_invariant(&*self);
        }
        let c = Character::new(c, self.color());
        self.buff[pos.0 + pos.1 * WIDTH] = c;
        if !self.is_copy {
            writechar(pos, c)
        } else {
            Vec::new()
        }
    }

    /// The cell in memory at column `pos.0` of row `pos.1`, which may differ
    /// from what the display shows. The place has to lie within the cells.
    pub fn get(&mut self, pos: (usize, usize)) -> (c: Character)
        requires
            0 <= cell_index(pos) < CELLS,
        ensures
            c == old(self)@.buff[cell_index(pos)],
            old(self)@.wf(),
            *final(self) == *old(self),
    {
        proof {
            use_type_invariant(&*self);
        }
        self.buff[pos.0 + pos.1 * WIDTH]
    }

    /// Appends the cell `c` where appended text goes on.
    ///
    /// A line feed is not written. Above the last row it moves the place of
    /// writing to the start of the next row and leaves the cells alone. In
    /// the last row, or behind it, every row moves up by one, the first row
    /// is lost, the last row becomes blank and writing goes on at its start.
    ///
    /// Any other character is written at the place of writing, which moves on
    /// by one. When the last cell has been written already, every cell moves
    /// down by one place, the first cell is lost and `c` takes the last.
    pub fn append_char(&mut self, c: Character) -> (ret: &mut Self)
        ensures
            ret@ == old(self)@.append(c),
            ret@.wf(),
            // a line feed above the last row
            c.ascii == NEWLINE && old(self)@.row() < HEIGHT - 1 ==> {
                &&& ret@.buff == old(self)@.buff
                &&& ret@.pos == (old(self)@.row() + 1) * WIDTH
            },
            // a line feed in the last row
            c.ascii == NEWLINE && old(self)@.row() >= HEIGHT - 1 ==> {
                &&& ret@.pos == (HEIGHT - 1) * WIDTH
                &&& forall|i: int|
                    0 <= i < CELLS - WIDTH ==> ret@.buff[i] == old(self)@.buff[i + WIDTH]
                &&& forall|i: int| CELLS - WIDTH <= i < CELLS ==> ret@.buff[i] == Character::blank()
            },
            // a character behind the last cell
            c.ascii != NEWLINE && old(self)@.pos == CELLS ==> {
                &&& ret@.pos == CELLS
                &&& forall|i: int| 0 <= i < CELLS - 1 ==> ret@.buff[i] == old(self)@.buff[i + 1]
                &&& ret@.buff[CELLS - 1] == c
            },
            // a character anywhere else
            c.ascii != NEWLINE && old(self)@.pos < CELLS ==> {
                &&& ret@.pos == old(self)@.pos + 1
                &&& ret@.buff == old(self)@.buff.update(old(self)@.pos as int, c)
            },
            ret@.col == old(self)@.col,
            ret@.is_copy == old(self)@.is_copy,
            *final(self) == *final(ret),
    {
        proof {
            use_type_invariant(&*self);
        }
        if c.ascii() == NEWLINE {
            if self.pos / WIDTH >= HEIGHT - 1 {
                shift(&mut self.buff, WIDTH, Character::blank());
                self.pos = (HEIGHT - 1) * WIDTH;
                assert(self.buff@ =~= old(self).buff@.skip(WIDTH as int) + blanks(WIDTH as nat));
            } else {
                self.pos = (self.pos / WIDTH + 1) * WIDTH;
            }
        } else if self.pos == CELLS {
            shift(&mut self.buff, 1, c);
            assert(self.buff@ =~= old(self).buff@.skip(1).push(c));
        } else {
            self.buff[self.pos] = c;
            self.pos += 1;
        }
        self
    }

    /// Appends the characters of `c`, in the console's color.
    ///
    /// Text of a full display or more is not appended whole: the leading
    /// `c.len() / CELLS` displays of it are skipped, and what is left, fewer
    /// than `CELLS` characters, is appended one by one as `append_char` does.
    pub fn append_str(&mut self, c: &[u8]) -> (ret: &mut Self)
        ensures
            ret@ == old(self)@.append_all(colored(appended_part(c@), old(self)@.col)),
            c@.len() < CELLS ==> ret@ == old(self)@.append_all(colored(c@, old(self)@.col)),
            ret@.col == old(self)@.col,
            ret@.is_copy == old(self)@.is_copy,
            ret@.wf(),
            *final(self) == *final(ret),
    {
        proof {
            use_type_invariant(&*self);
        }
        // whole displays at the front of the text are not written at all
        let count: usize = (c.len() / CELLS) * CELLS;
        let ghost tail = colored(appended_part(c@), self.col);
        let ghost before = self@;
        let mut k: usize = count;
        assert(tail.take(0) =~= Seq::<Character>::empty());
        while k < c.len()
            invariant
                count <= k <= c@.len(),
                count == skipped(c@.len() as int),
                before.col == self.col,
                before.is_copy == self.is_copy,
                tail == colored(appended_part(c@), self.col),
                self@ == before.append_all(tail.take(k - count)),
                self.pos <= CELLS,
            decreases c@.len() - k,
        {
            let b = c[k];
            proof {
                assert(tail.take(k + 1 - count).drop_last() =~= tail.take(k - count));
                assert(tail.take(k + 1 - count).last() == Character::new(b, self.col));
            }
            let col = self.col;
            self.append_char(Character::new(b, col));
            k += 1;
        }
        proof {
            assert(tail.take(k - count) =~= tail);
            if c@.len() < CELLS {
                assert(appended_part(c@) =~= c@);
            }
        }
        self
    }

    /// Appends `text`, which has to be ASCII, as `append_str` does, and
    /// returns the stores that show the result. A detached console returns
    /// none.
    pub fn print(&mut self, text: &str) -> (accesses: Vec<Access>)
        requires
            text.is_ascii(),
        ensures
            final(self)@ == old(self)@.append_all(
                colored(appended_part(text.spec_bytes()), old(self)@.col),
            ),
            accesses@ == final(self)@.flushed(),
            final(self)@.col == old(self)@.col,
            final(self)@.is_copy == old(self)@.is_copy,
            old(self)@.is_copy ==> accesses@.len() == 0,
            final(self)@.wf(),
    {
        self.append_str(text.as_bytes());
        self.flush()
    }

    /// Makes every cell `clear_char`, returns the stores that show it, and
    /// lets appended text go on at the first cell. A detached console returns
    /// no stores.
    pub fn clear_char(&mut self, clear_char: Character) -> (accesses: Vec<Access>)
        ensures
            final(self)@ == (Console {
                pos: 0,
                buff: filled(CELLS as nat, clear_char),
                ..old(self)@
            }),
            accesses@ == final(self)@.flushed(),
            old(self)@.is_copy ==> accesses@.len() == 0,
            final(self)@.wf(),
    {
        proof {
            use_type_invariant(&*self);
        }
        fill(&mut self.buff, clear_char);
        let accesses = self.flush();
        self.pos = 0;
        accesses
    }

    /// Clears the console to spaces in its own color, as `clear_char` does.
    pub fn clear(&mut self) -> (accesses: Vec<Access>)
        ensures
            final(self)@ == (Console {
                pos: 0,
                buff: filled(CELLS as nat, Character::new(SPACE, old(self)@.col)),
                ..old(self)@
            }),
            accesses@ == final(self)@.flushed(),
            old(self)@.is_copy ==> accesses@.len() == 0,
            final(self)@.wf(),
    {
        let blank = Character::new(SPACE, self.col);
        self.clear_char(blank)
    }

    /// Puts the console back as it started: every cell blank, the default
    /// color, appended text going on at the first cell.
    ///
    /// A live console returns the stores that show the blank cells and, after
    /// them, the accesses of `vga_init`, which set the device up again; the
    /// byte that the last of them returns goes to `vga_init_finish`. A
    /// detached console returns none.
    pub fn reset(&mut self) -> (accesses: Vec<Access>)
        ensures
            final(self)@ == Console::fresh(old(self)@.is_copy),
            accesses@ == if old(self)@.is_copy {
                Seq::<Access>::empty()
            } else {
                final(self)@.flushed() + setup_accesses()
            },
            final(self)@.wf(),
    {
        let mut accesses = self.clear_char(Character::blank());
        self.col = TextColor::default();
        if !self.is_copy {
            let mut setup = vga_init();
            accesses.append(&mut setup);
        }
        proof {
            assert(self.buff@ =~= blanks(CELLS as nat));
            if self.is_copy {
                assert(accesses@ =~= Seq::<Access>::empty());
            }
        }
        accesses
    }

    /// The stores that bring the display up to date with the cells in
    /// memory: every cell, in order. A detached console returns none.
    pub fn flush(&self) -> (accesses: Vec<Access>)
        ensures
            accesses@ == self@.flushed(),
            self@.is_copy ==> accesses@.len() == 0,
            !self@.is_copy ==> accesses@.len() == 2 * CELLS,
    {
        if !self.is_copy {
            write_at((0, 0), self.buff.as_slice())
        } else {
            Vec::new()
        }
    }

    /// Takes over the cells of `other`. Nothing else changes, and nothing is
    /// shown until the next `flush`.
    pub fn sync(&mut self, other: &TTY) -> (ret: &mut Self)
        ensures
            ret@ == (Console { buff: other@.buff, ..old(self)@ }),
            ret@.wf(),
            *final(self) == *final(ret),
    {
        proof {
            use_type_invariant(&*self);
        }
        self.buff = other.buff;
        self
    }

    /// Takes over the cells of `other`, which has to hold exactly `CELLS` of
    /// them. Nothing else changes, and nothing is shown until the next
    /// `flush`.
    pub fn sync_buff(&mut self, other: &[Character]) -> (ret: &mut Self)
        requires
            other@.len() == CELLS,
        ensures
            ret@ == (Console { buff: other@, ..old(self)@ }),
            ret@.wf(),
            *final(self) == *final(ret),
    {
        proof {
            use_type_invariant(&*self);
        }
        let mut i: usize = 0;
        while i < CELLS
            invariant
                i <= CELLS,
                other@.len() == CELLS,
                self.pos == old(self).pos,
                self.pos <= CELLS,
                self.col == old(self).col,
                self.is_copy == old(self).is_copy,
                forall|j: int| 0 <= j < i ==> self.buff@[j] == other@[j],
            decreases CELLS - i,
        {
            self.buff[i] = other[i];
            i += 1;
        }
        assert(self.buff@ =~= other@);
        self
    }

    /// The cells in memory, row by row.
    pub fn buff(&self) -> (cells: &[Character])
        ensures
            cells@ == self@.buff,
            cells@.len() == CELLS,
    {
        self.buff.as_slice()
    }

    /// A detached console with the same cells. It starts in the default
    /// color at the first cell, and nothing done to it reaches the device or
    /// this console.
    pub fn copy(&self) -> (tty: TTY)
        ensures
            tty@ == (Console { buff: self@.buff, ..Console::fresh(true) }),
            tty@.wf(),
    {
        let mut tty = TTY::new();
        tty.buff = self.buff;
        tty
    }
}

/// Makes every cell `c`.
fn fill(buff: &mut [Character; 2000], c: Character)
    ensures
        final(buff)@ == filled(CELLS as nat, c),
    no_unwind
{
    let mut i: usize = 0;
    while i < CELLS
        invariant
            i <= CELLS,
            forall|j: int| 0 <= j < i ==> buff@[j] == c,
        decreases CELLS - i,
    {
        buff[i] = c;
        i += 1;
    }
    assert(buff@ =~= filled(CELLS as nat, c));
}

/// Moves every cell `n` places towards the start; the first `n` cells are
/// lost and the last `n` become `fill`.
fn shift(buff: &mut [Character; 2000], n: usize, fill: Character)
    requires
        n <= CELLS,
    ensures
        final(buff)@ == old(buff)@.skip(n as int) + filled(n as nat, fill),
    no_unwind
{
    let kept: usize = CELLS - n;
    let mut i: usize = 0;
    while i < kept
        invariant
            i <= kept,
            kept == CELLS - n,
            forall|j: int| 0 <= j < i ==> buff@[j] == old(buff)@[j + n],
            forall|j: int| i <= j < CELLS ==> buff@[j] == old(buff)@[j],
        decreases kept - i,
    {
        buff[i] = buff[i + n];
        i += 1;
    }
    while i < CELLS
        invariant
            kept <= i <= CELLS,
            kept == CELLS - n,
            forall|j: int| 0 <= j < kept ==> buff@[j] == old(buff)@[j + n],
            forall|j: int| kept <= j < i ==> buff@[j] == fill,
        decreases CELLS - i,
    {
        buff[i] = fill;
        i += 1;
    }
    assert(buff@ =~= old(buff)@.skip(n as int) + filled(n as nat, fill));
}

} // verus!
