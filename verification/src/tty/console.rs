//! What a console is, as far as contracts go: its cells, its place of
//! writing and its color, as mathematical values, and what each operation
//! makes of them.

use crate::memio::{
    lemma_memory_after_concat, lemma_stores_land, memory_after, stores, Access,
};
use crate::tty::vgatext::{
    cell_bytes, colored, setup_accesses, Character, TextColor, CELLS, HEIGHT, NEWLINE,
    VIDEO_MEMORY, WIDTH,
};
use vstd::prelude::*;

verus! {

/// The state of a console.
pub struct Console {
    /// Where the next appended character goes: an index into `buff`, or
    /// `CELLS` once the last cell has been written.
    pub pos: nat,
    /// The color of characters written without one of their own.
    pub col: TextColor,
    /// The cells, row by row.
    pub buff: Seq<Character>,
    /// Whether the console is detached from the device.
    pub is_copy: bool,
}

/// A run of `n` blank cells.
pub open spec fn blanks(n: nat) -> Seq<Character> {
    Seq::new(n, |i: int| Character::blank())
}

/// A run of `n` cells that all hold `c`.
pub open spec fn filled(n: nat, c: Character) -> Seq<Character> {
    Seq::new(n, |i: int| c)
}

impl Console {
    /// A console has exactly `CELLS` cells and writes at one of them, or just
    /// behind the last.
    pub open spec fn wf(self) -> bool {
        self.pos <= CELLS && self.buff.len() == CELLS
    }

    /// The console as it starts: blank, writing at the first cell in the
    /// default color.
    pub open spec fn fresh(is_copy: bool) -> Console {
        Console { pos: 0, col: TextColor::default(), buff: blanks(CELLS as nat), is_copy }
    }

    /// The row in which the console writes. It is `HEIGHT` when the last cell
    /// has been written.
    pub open spec fn row(self) -> int {
        self.pos as int / WIDTH as int
    }

    /// The console after `c` has been appended.
    ///
    /// A line feed moves the place of writing to the start of the next row,
    /// and where there is none it moves all rows up by one and clears the
    /// last. Any other character is written at the place of writing, which
    /// moves on by one; when the last cell has been written already, all
    /// cells move down by one place first, the oldest is lost, and the
    /// character takes the last cell.
    pub open spec fn append(self, c: Character) -> Console {
        if c.ascii == NEWLINE {
            if self.row() >= HEIGHT - 1 {
                Console {
                    pos: ((HEIGHT - 1) * WIDTH) as nat,
                    buff: self.buff.skip(WIDTH as int) + blanks(WIDTH as nat),
                    ..self
                }
            } else {
                Console { pos: ((self.row() + 1) * WIDTH) as nat, ..self }
            }
        } else if self.pos >= CELLS {
            Console { buff: self.buff.skip(1).push(c), ..self }
        } else {
            Console { pos: self.pos + 1, buff: self.buff.update(self.pos as int, c), ..self }
        }
    }

    /// The console after the characters of `cs` have been appended one by
    /// one, first to last.
    pub open spec fn append_all(self, cs: Seq<Character>) -> Console
        decreases cs.len(),
    {
        if cs.len() == 0 {
            self
        } else {
            self.append_all(cs.drop_last()).append(cs.last())
        }
    }

    /// The stores that bring the device up to date with the console: none
    /// for a detached console, else every cell in order.
    pub open spec fn flushed(self) -> Seq<Access> {
        if self.is_copy {
            Seq::empty()
        } else {
            stores(VIDEO_MEMORY as int, cell_bytes(self.buff))
        }
    }
}

/// How many characters at the front of a text of `len` characters `append_str`
/// skips: the full displays, `len / CELLS` times `CELLS`.
pub open spec fn skipped(len: int) -> int {
    (len / CELLS as int) * CELLS
}

/// The part of `text` that `append_str` appends: what follows the skipped
/// full displays.
pub open spec fn appended_part(text: Seq<u8>) -> Seq<u8> {
    text.skip(skipped(text.len() as int))
}

/// Where a positioned run writes next, after the characters of `cs`, when it
/// started at index `start`: each character takes one cell, and a line feed
/// takes none and skips to the start of the next row.
pub open spec fn run_index(start: int, cs: Seq<Character>) -> int
    decreases cs.len(),
{
    if cs.len() == 0 {
        start
    } else {
        let at = run_index(start, cs.drop_last());
        if cs.last().ascii == NEWLINE {
            (at / WIDTH as int + 1) * WIDTH
        } else {
            at + 1
        }
    }
}

/// Whether the run `cs`, started at index `start`, stays on the display:
/// every one of its characters, line feeds too, is met at an index below
/// `CELLS`.
pub open spec fn run_fits(start: int, cs: Seq<Character>) -> bool {
    forall|k: int| 0 <= k < cs.len() ==> run_index(start, #[trigger] cs.take(k)) < CELLS
}

/// The cells after the run `cs` has been written from index `start`: each
/// character but the line feed replaces the cell at the index at which it is
/// met.
pub open spec fn put_run(buff: Seq<Character>, start: int, cs: Seq<Character>) -> Seq<Character>
    decreases cs.len(),
{
    if cs.len() == 0 {
        buff
    } else {
        let before = put_run(buff, start, cs.drop_last());
        if cs.last().ascii == NEWLINE {
            before
        } else {
            before.update(run_index(start, cs.drop_last()), cs.last())
        }
    }
}

/// Whether no character of `cs` is a line feed.
pub open spec fn plain(cs: Seq<Character>) -> bool {
    forall|i: int| 0 <= i < cs.len() ==> (#[trigger] cs[i]).ascii != NEWLINE
}

/// The front of a run without line feeds is without line feeds.
pub proof fn lemma_plain_take(cs: Seq<Character>, n: int)
    requires
        plain(cs),
        0 <= n <= cs.len(),
    ensures
        plain(cs.take(n)),
{
    assert forall|i: int| 0 <= i < n implies (#[trigger] cs.take(n)[i]).ascii != NEWLINE by {
        assert(cs.take(n)[i] == cs[i]);
    }
}

/// A run without line feeds moves on by one cell for each character.
pub proof fn lemma_run_index_plain(start: int, cs: Seq<Character>)
    requires
        plain(cs),
    ensures
        run_index(start, cs) == start + cs.len(),
    decreases cs.len(),
{
    if cs.len() > 0 {
        lemma_plain_take(cs, cs.len() - 1);
        assert(cs.take(cs.len() - 1) =~= cs.drop_last());
        assert(cs.last() == cs[cs.len() - 1]);
        lemma_run_index_plain(start, cs.drop_last());
    }
}

/// A run never goes back: after its characters it is at least as many cells
/// behind its start.
pub proof fn lemma_run_index_at_least(start: int, cs: Seq<Character>)
    requires
        0 <= start,
    ensures
        start + cs.len() <= run_index(start, cs),
    decreases cs.len(),
{
    if cs.len() > 0 {
        lemma_run_index_at_least(start, cs.drop_last());
    }
}

/// A run moves on with every character: a character of the run is met at a
/// higher index than every character before it.
pub proof fn lemma_run_index_increases(start: int, cs: Seq<Character>, i: int, j: int)
    requires
        0 <= start,
        0 <= i < j <= cs.len(),
    ensures
        start <= run_index(start, cs.take(i)) < run_index(start, cs.take(j)),
    decreases j,
{
    assert(cs.take(j).drop_last() =~= cs.take(j - 1));
    lemma_run_index_at_least(start, cs.take(j - 1));
    lemma_run_index_at_least(start, cs.take(i));
    if i < j - 1 {
        lemma_run_index_increases(start, cs, i, j - 1);
    }
}

/// What a positioned run leaves in the cells, place by place: each character
/// of the run but the line feed stands at the index at which it was met, and
/// every other cell is as it was.
pub proof fn lemma_put_run_cells(buff: Seq<Character>, start: int, cs: Seq<Character>)
    requires
        0 <= start,
        buff.len() == CELLS,
        run_fits(start, cs),
    ensures
        put_run(buff, start, cs).len() == CELLS,
        forall|k: int|
            0 <= k < cs.len() && cs[k].ascii != NEWLINE ==> put_run(buff, start, cs)[run_index(
                start,
                #[trigger] cs.take(k),
            )] == cs[k],
        forall|j: int|
            0 <= j < CELLS && (forall|k: int|
                0 <= k < cs.len() && cs[k].ascii != NEWLINE ==> run_index(
                    start,
                    #[trigger] cs.take(k),
                ) != j) ==> #[trigger] put_run(buff, start, cs)[j] == buff[j],
    decreases cs.len(),
{
    if cs.len() > 0 {
        let n = cs.len() as int;
        let front = cs.drop_last();
        assert forall|k: int| 0 <= k < front.len() implies run_index(
            start,
            #[trigger] front.take(k),
        ) < CELLS by {
            assert(front.take(k) =~= cs.take(k));
        }
        lemma_put_run_cells(buff, start, front);
        assert(cs.take(n - 1) =~= front);
        let before = put_run(buff, start, front);
        let after = put_run(buff, start, cs);
        let at = run_index(start, front);
        assert(0 <= at < CELLS) by {
            if n - 1 > 0 {
                lemma_run_index_increases(start, cs, 0, n - 1);
            }
        }
        assert forall|k: int| 0 <= k < cs.len() && cs[k].ascii != NEWLINE implies after[run_index(
            start,
            #[trigger] cs.take(k),
        )] == cs[k] by {
            if k < n - 1 {
                assert(front.take(k) =~= cs.take(k));
                assert(front[k] == cs[k]);
                lemma_run_index_increases(start, cs, k, n - 1);
            }
        }
        assert forall|j: int|
            0 <= j < CELLS && (forall|k: int|
                0 <= k < cs.len() && cs[k].ascii != NEWLINE ==> run_index(
                    start,
                    #[trigger] cs.take(k),
                ) != j) implies #[trigger] after[j] == buff[j] by {
            assert forall|k: int| 0 <= k < front.len() && front[k].ascii != NEWLINE implies run_index(
                start,
                #[trigger] front.take(k),
            ) != j by {
                assert(front.take(k) =~= cs.take(k));
                assert(front[k] == cs[k]);
            }
            assert(before[j] == buff[j]);
            if cs[n - 1].ascii != NEWLINE {
                assert(run_index(start, cs.take(n - 1)) != j);
            }
        }
    }
}

/// A run without line feeds takes one cell after the other: it replaces as
/// many cells as it has characters, from its start onwards.
pub proof fn lemma_put_run_plain(buff: Seq<Character>, start: int, cs: Seq<Character>)
    requires
        plain(cs),
        0 <= start,
        start + cs.len() <= buff.len(),
    ensures
        put_run(buff, start, cs) == buff.take(start) + cs + buff.skip(start + cs.len()),
    decreases cs.len(),
{
    if cs.len() == 0 {
        assert(buff =~= buff.take(start) + cs + buff.skip(start + cs.len()));
    } else {
        let front = cs.drop_last();
        lemma_plain_take(cs, cs.len() - 1);
        assert(cs.take(cs.len() - 1) =~= front);
        assert(cs.last() == cs[cs.len() - 1]);
        lemma_run_index_plain(start, front);
        lemma_put_run_plain(buff, start, front);
        assert(put_run(buff, start, cs) =~= buff.take(start) + cs + buff.skip(start + cs.len()));
    }
}

/// A run without line feeds stays on the display exactly when its last
/// character does: a run may end with the last cell.
pub proof fn lemma_run_fits_plain(start: int, cs: Seq<Character>)
    requires
        plain(cs),
        0 <= start,
        cs.len() > 0,
    ensures
        run_fits(start, cs) <==> start + cs.len() <= CELLS,
{
    let n = cs.len() as int;
    lemma_plain_take(cs, n - 1);
    lemma_run_index_plain(start, cs.take(n - 1));
    if start + n <= CELLS {
        assert forall|k: int| 0 <= k < n implies run_index(start, #[trigger] cs.take(k)) < CELLS by {
            if k < n - 1 {
                lemma_run_index_increases(start, cs, k, n - 1);
            }
        }
    }
}

/// Appending keeps a console a console, and changes neither its color nor
/// whether it is detached.
pub proof fn lemma_append_wf(t: Console, c: Character)
    requires
        t.wf(),
    ensures
        t.append(c).wf(),
        t.append(c).col == t.col,
        t.append(c).is_copy == t.is_copy,
{
}

/// Appending a run keeps a console a console, and changes neither its color
/// nor whether it is detached.
pub proof fn lemma_append_all_wf(t: Console, cs: Seq<Character>)
    requires
        t.wf(),
    ensures
        t.append_all(cs).wf(),
        t.append_all(cs).col == t.col,
        t.append_all(cs).is_copy == t.is_copy,
    decreases cs.len(),
{
    if cs.len() > 0 {
        lemma_append_all_wf(t, cs.drop_last());
        lemma_append_wf(t.append_all(cs.drop_last()), cs.last());
    }
}

/// Appending a run in two pieces, one after the other, is appending it whole.
pub proof fn lemma_append_all_concat(t: Console, a: Seq<Character>, b: Seq<Character>)
    ensures
        t.append_all(a + b) == t.append_all(a).append_all(b),
    decreases b.len(),
{
    if b.len() == 0 {
        assert(a + b =~= a);
    } else {
        lemma_append_all_concat(t, a, b.drop_last());
        assert((a + b).drop_last() =~= a + b.drop_last());
        assert((a + b).last() == b.last());
    }
}

/// What appending a run without line feeds comes to.
///
/// Take the cells before the place of writing, followed by the run. While
/// that ends on the display, the run has replaced the cells from the place
/// of writing onwards and writing goes on behind it. Once it is longer than
/// the display, the console shows its last `CELLS` cells, oldest first, and
/// the place of writing stays behind the last cell.
pub proof fn lemma_append_all_plain(t: Console, cs: Seq<Character>)
    requires
        t.wf(),
        plain(cs),
    ensures
        t.pos + cs.len() <= CELLS ==> {
            &&& t.append_all(cs).pos == t.pos + cs.len()
            &&& t.append_all(cs).buff == t.buff.take(t.pos as int) + cs + t.buff.skip(
                (t.pos + cs.len()) as int,
            )
        },
        t.pos + cs.len() > CELLS ==> {
            &&& t.append_all(cs).pos == CELLS
            &&& t.append_all(cs).buff == (t.buff.take(t.pos as int) + cs).skip(
                t.pos + cs.len() - CELLS,
            )
        },
    decreases cs.len(),
{
    let n = cs.len() as int;
    let pos = t.pos as int;
    let head = t.buff.take(pos);
    if n == 0 {
        assert(t.buff =~= head + cs + t.buff.skip(pos + n));
    } else {
        let front = cs.drop_last();
        let c = cs.last();
        lemma_plain_take(cs, n - 1);
        assert(cs.take(n - 1) =~= front);
        assert(c == cs[n - 1]);
        lemma_append_all_plain(t, front);
        lemma_append_all_wf(t, front);
        let before = t.append_all(front);
        let after = before.append(c);
        assert(after == t.append_all(cs));
        if pos + n <= CELLS {
            assert(after.buff =~= head + cs + t.buff.skip(pos + n));
        } else if pos + n - 1 == CELLS {
            assert(before.buff =~= head + front);
            assert(after.buff =~= (head + cs).skip(pos + n - CELLS));
        } else {
            assert(after.buff =~= (head + cs).skip(pos + n - CELLS));
        }
    }
}

/// The console as a queue: when a run without line feeds, at least as long as
/// the display, has been appended to a console that wrote at its first cell,
/// the console shows exactly the last `CELLS` characters of the run, in the
/// order in which they came, and the place of writing is behind the last
/// cell.
pub proof fn lemma_fifo_overflow(t: Console, cs: Seq<Character>)
    requires
        t.wf(),
        t.pos == 0,
        plain(cs),
        cs.len() >= CELLS,
    ensures
        t.append_all(cs).buff == cs.skip(cs.len() - CELLS),
        t.append_all(cs).pos == CELLS,
{
    lemma_append_all_plain(t, cs);
    assert(t.append_all(cs).buff =~= cs.skip(cs.len() - CELLS));
}

/// A detached console stays detached whatever is appended, and there is
/// never anything to store for it.
pub proof fn lemma_detached_is_silent(t: Console, cs: Seq<Character>)
    requires
        t.wf(),
        t.is_copy,
    ensures
        t.flushed() == Seq::<Access>::empty(),
        t.append_all(cs).is_copy,
        t.append_all(cs).flushed() == Seq::<Access>::empty(),
{
    lemma_append_all_wf(t, cs);
}

/// Appending text in one go comes to appending its characters one by one
/// whenever the text is shorter than a full display; and for longer text
/// whenever the full displays that are skipped at its front would have left
/// no trace.
pub proof fn lemma_append_str_is_append_each(t: Console, text: Seq<u8>)
    requires
        text.len() < CELLS || t.append_all(colored(appended_part(text), t.col)) == t.append_all(
            colored(text, t.col),
        ),
    ensures
        t.append_all(colored(appended_part(text), t.col)) == t.append_all(colored(text, t.col)),
{
    if text.len() < CELLS {
        assert(appended_part(text) =~= text);
    }
}

/// Text that is made of full displays and nothing more is skipped
/// altogether: appending it in one go leaves the console as it was.
pub proof fn lemma_append_str_skips_full_displays(t: Console, text: Seq<u8>)
    requires
        text.len() % CELLS as nat == 0,
    ensures
        t.append_all(colored(appended_part(text), t.col)) == t,
{
    assert(appended_part(text) =~= Seq::<u8>::empty());
    assert(colored(appended_part(text), t.col) =~= Seq::<Character>::empty());
}

/// Beyond that the two differ. Take a console that writes at its first cell
/// and a full display of text without line feeds: in one go the text is
/// skipped and the console stays as it was, while character by character the
/// text fills every cell.
pub proof fn lemma_append_str_differs(t: Console, text: Seq<u8>)
    requires
        t.wf(),
        t.pos == 0,
        text.len() == CELLS,
        plain(colored(text, t.col)),
    ensures
        t.append_all(colored(appended_part(text), t.col)) == t,
        t.append_all(colored(text, t.col)).pos == CELLS,
        t.append_all(colored(text, t.col)).buff == colored(text, t.col),
        t.append_all(colored(appended_part(text), t.col)) != t.append_all(colored(text, t.col)),
{
    lemma_append_str_skips_full_displays(t, text);
    lemma_fifo_overflow(t, colored(text, t.col));
    assert(colored(text, t.col).skip(0) =~= colored(text, t.col));
}

/// Whether video memory shows `cells`: for each cell, its character at the
/// even address and its attribute at the odd address that follows.
pub open spec fn shows(memory: Map<u64, u8>, cells: Seq<Character>) -> bool {
    forall|i: int|
        0 <= i < cells.len() ==> {
            &&& memory.contains_pair((VIDEO_MEMORY + 2 * i) as u64, (#[trigger] cells[i]).ascii)
            &&& memory.contains_pair((VIDEO_MEMORY + 2 * i + 1) as u64, cells[i].color.0)
        }
}

/// After the stores of a flush, the display shows the cells of a live
/// console, whatever it showed before.
pub proof fn lemma_flush_shows_cells(memory: Map<u64, u8>, t: Console)
    requires
        t.wf(),
        !t.is_copy,
    ensures
        shows(memory_after(memory, t.flushed()), t.buff),
{
    let bytes = cell_bytes(t.buff);
    lemma_stores_land(memory, VIDEO_MEMORY as int, bytes);
    let after = memory_after(memory, t.flushed());
    assert forall|i: int| 0 <= i < t.buff.len() implies {
        &&& after.contains_pair((VIDEO_MEMORY + 2 * i) as u64, (#[trigger] t.buff[i]).ascii)
        &&& after.contains_pair((VIDEO_MEMORY + 2 * i + 1) as u64, t.buff[i].color.0)
    } by {
        assert(bytes[2 * i] == t.buff[i].ascii);
        assert(bytes[2 * i + 1] == t.buff[i].color.0);
        assert(after.contains_pair((VIDEO_MEMORY + 2 * i) as u64, bytes[2 * i]));
        assert(after.contains_pair((VIDEO_MEMORY + (2 * i + 1)) as u64, bytes[2 * i + 1]));
    }
}

/// After a live console has been reset and flushed, every cell of the
/// display is the blank cell: a space, black on black.
pub proof fn lemma_reset_then_flush_is_blank(memory: Map<u64, u8>)
    ensures
        shows(
            memory_after(
                memory,
                Console::fresh(false).flushed() + setup_accesses() + Console::fresh(
                    false,
                ).flushed(),
            ),
            blanks(CELLS as nat),
        ),
{
    let fresh = Console::fresh(false);
    let reset = fresh.flushed() + setup_accesses();
    lemma_memory_after_concat(memory, reset, fresh.flushed());
    lemma_flush_shows_cells(memory_after(memory, reset), fresh);
}

} // verus!
