//! The decisions of the live search: what a key does to the query, what is
//! drawn for a query, and how the cursor gets back over what was drawn. The
//! terminal itself is driven by the caller.

use vstd::prelude::*;

use crate::commands::{found, search_lines};
use crate::store::{search_order, SearchScope, Store};
use crate::text::{pop_char, push_char, strs};

verus! {

/// Milliseconds to wait for an event before looking again.
pub const POLL_INTERVAL_MS: u64 = 120;

/// A key of the keyboard, as far as the live search tells keys apart.
#[derive(Debug, Copy, Clone, PartialEq, Eq, Structural)]
pub enum Key {
    Char(char),
    Backspace,
    Esc,
    Enter,
    Delete,
    Other,
}

/// A key with the state of the control modifier.
#[derive(Debug, Copy, Clone, PartialEq, Eq, Structural)]
pub struct KeyPress {
    pub key: Key,
    pub control: bool,
}

/// What the terminal reports.
#[derive(Debug, Copy, Clone, PartialEq, Eq, Structural)]
pub enum Event {
    /// A key was pressed.
    Pressed(KeyPress),
    /// The window changed its size.
    Resized,
    /// Anything else, a key's release among it.
    Ignored,
}

/// What the session does next.
#[derive(Debug, Copy, Clone, PartialEq, Eq, Structural)]
pub enum Step {
    /// Leave the session.
    Exit,
    /// Draw again.
    Render,
    /// Wait for the next event.
    Wait,
}

/// Whether a key ends the session: control with `c` or `d`, or escape or
/// enter without control.
pub open spec fn ends_session(event: KeyPress) -> bool {
    if event.control {
        event.key == Key::Char('c') || event.key == Key::Char('d')
    } else {
        event.key is Esc || event.key is Enter
    }
}

/// The query after a key: a character is added, backspace takes the last
/// character away, delete clears the query; with control nothing changes.
pub open spec fn edited(input: Seq<char>, event: KeyPress) -> Seq<char> {
    if event.control {
        input
    } else {
        match event.key {
            Key::Char(c) => input.push(c),
            Key::Backspace => if input.len() > 0 {
                input.drop_last()
            } else {
                input
            },
            Key::Delete => Seq::empty(),
            _ => input,
        }
    }
}

/// Applies a key to the query and tells whether the session ends.
pub fn handle_key_event(event: KeyPress, input: &mut String) -> (exit: bool)
    ensures
        exit == ends_session(event),
        final(input)@ == edited(old(input)@, event),
{
    if event.control {
        return match event.key {
            Key::Char(c) => c == 'c' || c == 'd',
            _ => false,
        };
    }
    match event.key {
        Key::Char(c) => {
            push_char(input, c);
        },
        Key::Backspace => {
            pop_char(input);
        },
        Key::Esc => {
            return true;
        },
        Key::Enter => {
            return true;
        },
        Key::Delete => {
            *input = String::new();
        },
        Key::Other => {},
    }
    false
}

/// What the session does after an event.
pub open spec fn step_after(event: Event) -> Step {
    match event {
        Event::Pressed(key) => if ends_session(key) {
            Step::Exit
        } else {
            Step::Render
        },
        Event::Resized => Step::Render,
        Event::Ignored => Step::Wait,
    }
}

/// Takes an event: applies a pressed key to the query and says what the
/// session does next.
pub fn next_step(event: Event, input: &mut String) -> (step: Step)
    ensures
        step == step_after(event),
        final(input)@ == match event {
            Event::Pressed(key) => edited(old(input)@, key),
            _ => old(input)@,
        },
{
    match event {
        Event::Pressed(key) => {
            if handle_key_event(key, input) {
                Step::Exit
            } else {
                Step::Render
            }
        },
        Event::Resized => Step::Render,
        Event::Ignored => Step::Wait,
    }
}

/// The lines drawn for a query: the query, then a hint while it is empty,
/// else the lines of the search.
pub open spec fn screen(hits: Seq<Seq<char>>, input: Seq<char>) -> Seq<Seq<char>> {
    if input.len() == 0 {
        seq!["Query: "@ + input, "Type to search (Esc to exit)."@]
    } else {
        seq!["Query: "@ + input] + hits
    }
}

/// The lines to draw for a query.
pub fn render(store: &Store, input: &str, limit: usize, scope: SearchScope) -> (lines: Vec<String>)
    ensures
        strs(lines@) == screen(
            found(store.listing(), search_order(store.listing(), input@, scope, limit as nat)),
            input@,
        ),
{
    let mut lines: Vec<String> = Vec::new();
    let mut head = String::from_str("Query: ");
    head.append(input);
    lines.push(head);
    if input.is_empty() {
        lines.push(String::from_str("Type to search (Esc to exit)."));
        assert(strs(lines@) =~= seq!["Query: "@ + input@, "Type to search (Esc to exit)."@]);
    } else {
        let hits = search_lines(store, input, limit, scope);
        let mut i: usize = 0;
        while i < hits.len()
            invariant
                i <= hits.len(),
                lines.len() == i + 1,
                lines@[0]@ == "Query: "@ + input@,
                forall|k: int| 0 <= k < i ==> lines@[k + 1]@ == hits@[k]@,
            decreases hits.len() - i,
        {
            lines.push(hits[i].clone());
            i = i + 1;
        }
        assert(strs(lines@) =~= seq!["Query: "@ + input@] + strs(hits@));
    }
    lines
}

/// The greatest number of lines that the cursor moves up at once.
pub const MAX_STEP: u16 = 65535;

/// The moves that take the cursor up by `lines` lines: as long as lines are
/// left, one move by as many of them as a move can take.
pub open spec fn cursor_moves(lines: nat) -> Seq<u16>
    decreases lines,
{
    if lines == 0 {
        Seq::empty()
    } else if lines <= MAX_STEP {
        seq![lines as u16]
    } else {
        seq![MAX_STEP] + cursor_moves((lines - MAX_STEP) as nat)
    }
}

/// The sum of moves.
pub open spec fn moved(moves: Seq<u16>) -> nat
    decreases moves.len(),
{
    if moves.len() == 0 {
        0
    } else {
        moves[0] as nat + moved(moves.drop_first())
    }
}

/// The moves take the cursor up by exactly the lines asked for, and no
/// move is empty.
pub proof fn lemma_cursor_moves(lines: nat)
    ensures
        moved(cursor_moves(lines)) == lines,
        forall|i: int| 0 <= i < cursor_moves(lines).len() ==> #[trigger] cursor_moves(lines)[i] > 0,
    decreases lines,
{
    if lines == 0 {
    } else if lines <= MAX_STEP {
        let m = cursor_moves(lines);
        assert(m.drop_first() =~= Seq::<u16>::empty());
        assert(moved(m.drop_first()) == 0);
        assert(m[0] == lines);
    } else {
        let rest = cursor_moves((lines - MAX_STEP) as nat);
        lemma_cursor_moves((lines - MAX_STEP) as nat);
        let m = cursor_moves(lines);
        assert(m.drop_first() =~= rest);
        assert(m[0] == MAX_STEP);
        assert(moved(m) == m[0] as nat + moved(m.drop_first()));
        assert forall|i: int| 0 <= i < m.len() implies #[trigger] m[i] > 0 by {
            if i > 0 {
                assert(m[i] == rest[i - 1]);
            }
        }
    }
}

/// The moves that take the cursor back up over `lines` drawn lines.
pub fn clear_previous(lines: usize) -> (moves: Vec<u16>)
    ensures
        moves@ == cursor_moves(lines as nat),
{
    let mut moves: Vec<u16> = Vec::new();
    let mut remaining: usize = lines;
    while remaining > 0
        invariant
            remaining <= lines,
            moves@ + cursor_moves(remaining as nat) == cursor_moves(lines as nat),
        decreases remaining,
    {
        let step: u16 = if remaining <= 65535 {
            remaining as u16
        } else {
            65535
        };
        let ghost before = moves@;
        moves.push(step);
        proof {
            let rest = cursor_moves((remaining - step) as nat);
            assert(cursor_moves(remaining as nat) =~= seq![step] + rest);
            assert(moves@ + rest =~= before + (seq![step] + rest));
        }
        remaining = remaining - step as usize;
    }
    assert(moves@ + cursor_moves(0) =~= moves@);
    moves
}

} // verus!
