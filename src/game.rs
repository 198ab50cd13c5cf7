//! One round of the guessing game, as a state machine that is fed lines of
//! input.

use std::cmp::Ordering;
use vstd::prelude::*;

use crate::guess::{guess_in_line, read_guess};
use crate::secret::{draw_secret, HIGHEST, LOWEST};

verus! {

/// What went wrong with a line of input.
#[derive(Clone, Copy, Debug, PartialEq, Eq, Structural)]
pub enum InputError {
    /// The line holds no number: the game asks again.
    MalformedInput,
    /// No more input will come: the game cannot go on.
    InputStreamClosed,
}

/// What a game is, seen from outside: the number to guess and whether it has
/// been guessed.
pub struct GameView {
    pub target: u32,
    pub over: bool,
}

/// A round of the game: a hidden number, and whether it has been found.
pub struct Game {
    secret: u32,
    finished: bool,
}

impl View for Game {
    type V = GameView;

    closed spec fn view(&self) -> GameView {
        GameView { target: self.secret, over: self.finished }
    }
}

/// How a guess compares with the target.
pub open spec fn ordering_of(guess: u32, target: u32) -> Ordering {
    if guess < target {
        Ordering::Less
    } else if guess > target {
        Ordering::Greater
    } else {
        Ordering::Equal
    }
}

/// A number the game may pick.
pub open spec fn in_range(n: u32) -> bool {
    LOWEST <= n <= HIGHEST
}

/// A game that has just begun.
pub open spec fn fresh(target: u32) -> GameView {
    GameView { target, over: false }
}

/// What one line of input does to a game that is still on: a line that
/// holds no number changes nothing; one that does ends the game when it is
/// the target.
pub open spec fn after_line(v: GameView, line: Seq<char>) -> GameView {
    if v.over {
        v
    } else {
        match guess_in_line(line) {
            Some(g) => GameView { target: v.target, over: g == v.target },
            None => v,
        }
    }
}

/// The game after the given lines, in order; lines that come after the game
/// is over are not read.
pub open spec fn after_script(v: GameView, lines: Seq<Seq<char>>) -> GameView
    decreases lines.len(),
{
    if lines.len() == 0 {
        v
    } else {
        after_line(after_script(v, lines.drop_last()), lines.last())
    }
}

/// How a guess compares with the target: `Less` is too small, `Greater` too
/// big, `Equal` correct.
pub fn compare_guess(guess: u32, target: u32) -> (r: Ordering)
    ensures
        r == ordering_of(guess, target),
{
    guess.cmp(&target)
}

impl Game {
    /// A new round, with a number drawn at random between `LOWEST` and
    /// `HIGHEST`.
    pub fn new() -> (g: Game)
        ensures
            in_range(g@.target),
            !g@.over,
    {
        Game { secret: draw_secret(), finished: false }
    }

    /// A new round with a chosen number; `None` where the number is out of
    /// the game's range.
    pub fn with_secret(secret: u32) -> (r: Option<Game>)
        ensures
            r is Some <==> in_range(secret),
            r is Some ==> r->0@ == fresh(secret),
    {
        if LOWEST <= secret && secret <= HIGHEST {
            Some(Game { secret, finished: false })
        } else {
            None
        }
    }

    /// Whether the number has been guessed.
    pub fn is_over(&self) -> (r: bool)
        ensures
            r == self@.over,
    {
        self.finished
    }

    /// The number to guess.
    pub fn secret(&self) -> (r: u32)
        ensures
            r == self@.target,
    {
        self.secret
    }

    /// Takes one line of input, or `None` where the input has ended. A line
    /// that holds a number is compared with the target, and the game ends
    /// when they are equal; any other line is refused and changes nothing.
    pub fn take_input(&mut self, line: Option<&str>) -> (r: Result<(u32, Ordering), InputError>)
        requires
            !old(self)@.over,
        ensures
            match line {
                None => r == Err::<(u32, Ordering), InputError>(InputError::InputStreamClosed)
                    && final(self)@ == old(self)@,
                Some(l) => {
                    &&& final(self)@ == after_line(old(self)@, l@)
                    &&& match guess_in_line(l@) {
                        Some(g) => r == Ok::<(u32, Ordering), InputError>(
                            (g, ordering_of(g, old(self)@.target)),
                        ),
                        None => r == Err::<(u32, Ordering), InputError>(
                            InputError::MalformedInput,
                        ),
                    }
                },
            },
    {
        match line {
            None => Err(InputError::InputStreamClosed),
            Some(l) => match read_guess(l) {
                None => Err(InputError::MalformedInput),
                Some(g) => {
                    let order = compare_guess(g, self.secret);
                    if g == self.secret {
                        self.finished = true;
                    }
                    Ok((g, order))
                },
            },
        }
    }
}


/// A line that holds a guess, read while the game is on: a guess below the
/// target is too small and one above it too big, and neither ends the game;
/// the target itself is correct and ends it.
pub proof fn lemma_verdict_of_a_guess(v: GameView, line: Seq<char>)
    requires
        !v.over,
        guess_in_line(line) is Some,
    ensures
        ({
            let g = guess_in_line(line)->0;
            &&& g < v.target ==> ordering_of(g, v.target) == Ordering::Less && !after_line(
                v,
                line,
            ).over
            &&& g > v.target ==> ordering_of(g, v.target) == Ordering::Greater && !after_line(
                v,
                line,
            ).over
            &&& g == v.target ==> ordering_of(g, v.target) == Ordering::Equal && after_line(
                v,
                line,
            ).over
            &&& after_line(v, line).target == v.target
        }),
{
}

/// The line at `k` of a script ends the game: the game was still on before
/// it, and it holds a guess that compares equal to the target.
pub open spec fn won_at(target: u32, lines: Seq<Seq<char>>, k: int) -> bool {
    &&& 0 <= k < lines.len()
    &&& !after_script(fresh(target), lines.take(k)).over
    &&& guess_in_line(lines[k]) is Some
    &&& ordering_of(guess_in_line(lines[k])->0, target) == Ordering::Equal
    &&& after_script(fresh(target), lines.take(k + 1)).over
}

/// Lines that hold no number leave a game as it was: it neither ends nor
/// changes, however many of them come.
pub proof fn lemma_malformed_lines_change_nothing(v: GameView, lines: Seq<Seq<char>>)
    requires
        forall|i: int| 0 <= i < lines.len() ==> guess_in_line(#[trigger] lines[i]) is None,
    ensures
        after_script(v, lines) == v,
    decreases lines.len(),
{
    if lines.len() > 0 {
        lemma_malformed_lines_change_nothing(v, lines.drop_last());
        assert(guess_in_line(lines[lines.len() - 1]) is None);
    }
}

/// After any number of lines that hold no number, the first line that holds
/// one is compared with the target, and the game ends exactly when it is the
/// target.
pub proof fn lemma_first_number_decides(target: u32, prefix: Seq<Seq<char>>, line: Seq<char>)
    requires
        in_range(target),
        forall|i: int| 0 <= i < prefix.len() ==> guess_in_line(#[trigger] prefix[i]) is None,
        guess_in_line(line) is Some,
    ensures
        after_script(fresh(target), prefix) == fresh(target),
        after_script(fresh(target), prefix.push(line)).over <==> guess_in_line(line)->0
            == target,
{
    lemma_malformed_lines_change_nothing(fresh(target), prefix);
    assert(prefix.push(line).drop_last() =~= prefix);
}

/// A script never changes the number to guess.
proof fn lemma_target_kept(v: GameView, lines: Seq<Seq<char>>)
    ensures
        after_script(v, lines).target == v.target,
    decreases lines.len(),
{
    if lines.len() > 0 {
        lemma_target_kept(v, lines.drop_last());
    }
}

/// A script after which a fresh game is over has a line that won it.
proof fn lemma_over_means_won(target: u32, lines: Seq<Seq<char>>)
    requires
        after_script(fresh(target), lines).over,
    ensures
        exists|k: int| #[trigger] won_at(target, lines, k),
    decreases lines.len(),
{
    let n = lines.len() as int;
    let before = lines.drop_last();
    assert(n > 0);
    if after_script(fresh(target), before).over {
        lemma_over_means_won(target, before);
        let k = choose|k: int| #[trigger] won_at(target, before, k);
        assert(lines.take(k) =~= before.take(k));
        assert(lines.take(k + 1) =~= before.take(k + 1));
        assert(won_at(target, lines, k));
    } else {
        lemma_target_kept(fresh(target), before);
        assert(lines.take(n - 1) =~= before);
        assert(lines.take(n) =~= lines);
        assert(won_at(target, lines, n - 1));
    }
}

/// A scripted game whose last line reads as the target ends won: some line
/// of the script, read while the game was still on, holds a guess that
/// compares equal to the target, and the game is over from that line on.
pub proof fn lemma_script_ending_in_target_wins(target: u32, lines: Seq<Seq<char>>)
    requires
        in_range(target),
        lines.len() > 0,
        guess_in_line(lines.last()) == Some(target),
    ensures
        after_script(fresh(target), lines).over,
        exists|k: int| #[trigger] won_at(target, lines, k),
{
    lemma_target_kept(fresh(target), lines.drop_last());
    lemma_over_means_won(target, lines);
}

} // verus!
