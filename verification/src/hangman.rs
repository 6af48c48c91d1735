//! A word-guessing game: the player uncovers a secret word letter by letter
//! and may guess wrong only a few times.

use crate::chance::random_below;
use crate::text::{chars_of, is_space, is_whitespace};
use vstd::prelude::*;

verus! {

/// The number of wrong guesses after which the game is lost.
pub const NUM_INCORRECT_GUESSES: u32 = 5;

/// The mark that stands for a letter not yet uncovered.
pub const COVERED: char = '-';

/// The number of white-space characters at the front of `s`.
pub open spec fn leading_spaces(s: Seq<char>) -> nat
    decreases s.len(),
{
    if s.len() > 0 && is_space(s[0]) {
        1 + leading_spaces(s.skip(1))
    } else {
        0
    }
}

/// The number of white-space characters at the back of `s`.
pub open spec fn trailing_spaces(s: Seq<char>) -> nat
    decreases s.len(),
{
    if s.len() > 0 && is_space(s.last()) {
        1 + trailing_spaces(s.drop_last())
    } else {
        0
    }
}

/// `s` without the white space at its front and at its back.
pub open spec fn trimmed(s: Seq<char>) -> Seq<char> {
    let rest = s.skip(leading_spaces(s) as int);
    rest.take(rest.len() - trailing_spaces(rest))
}

/// The position of the first line break in `s`, or its length if it has
/// none.
pub open spec fn line_end(s: Seq<char>) -> nat
    decreases s.len(),
{
    if s.len() > 0 && s[0] != '\n' {
        1 + line_end(s.skip(1))
    } else {
        0
    }
}

/// The number of lines of `s`: one more than it has line breaks.
pub open spec fn line_count(s: Seq<char>) -> nat
    decreases s.len(),
{
    if line_end(s) < s.len() {
        1 + line_count(s.skip(line_end(s) as int + 1))
    } else {
        1
    }
}

/// Line number `index` of `s`, counted from zero, without its line break.
pub open spec fn line(s: Seq<char>, index: nat) -> Seq<char>
    decreases index,
{
    if index == 0 {
        s.take(line_end(s) as int)
    } else if line_end(s) < s.len() {
        line(s.skip(line_end(s) as int + 1), (index - 1) as nat)
    } else {
        Seq::empty()
    }
}

/// Finds the first line break of `chars` at or after `from`.
fn find_line_end(chars: &Vec<char>, from: usize) -> (end: usize)
    requires
        from <= chars@.len(),
    ensures
        from <= end <= chars@.len(),
        end == from + line_end(chars@.skip(from as int)),
{
    let mut end = from;
    let ghost rest = chars@.skip(from as int);
    proof {
        assert(rest.skip(0) =~= rest);
    }
    while end < chars.len() && chars[end] != '\n'
        invariant
            from <= end <= chars@.len(),
            rest == chars@.skip(from as int),
            line_end(rest) == (end - from) + line_end(rest.skip(end - from)),
        decreases chars@.len() - end,
    {
        proof {
            let here = rest.skip(end - from);
            assert(here[0] == chars@[end as int]);
            assert(here.skip(1) =~= rest.skip(end - from + 1));
        }
        end += 1;
    }
    proof {
        let here = rest.skip(end - from);
        if end < chars@.len() {
            assert(here[0] == chars@[end as int]);
        }
    }
    end
}

/// The number of lines in `text`.
pub fn count_lines(text: &str) -> (count: usize)
    requires
        text@.len() < usize::MAX,
    ensures
        count == line_count(text@),
{
    let chars = chars_of(text);
    let mut count: usize = 0;
    let mut from: usize = 0;
    proof {
        assert(chars@.skip(0) =~= chars@);
    }
    loop
        invariant_except_break
            count <= from,
            line_count(text@) == count + line_count(chars@.skip(from as int)),
        invariant
            chars@ == text@,
            chars@.len() < usize::MAX,
            from <= chars@.len(),
        ensures
            count == line_count(text@),
        decreases chars@.len() - from,
    {
        let end = find_line_end(&chars, from);
        if end >= chars.len() {
            count += 1;
            break ;
        }
        proof {
            assert(chars@.skip(from as int).skip(end - from + 1) =~= chars@.skip(end + 1));
        }
        count += 1;
        from = end + 1;
    }
    count
}

/// Line number `index` of `text`, without the white space around it.
pub fn word_at(text: &str, index: usize) -> (word: String)
    requires
        index < line_count(text@),
    ensures
        word@ == trimmed(line(text@, index as nat)),
{
    let chars = chars_of(text);
    let n = chars.len();
    let mut from: usize = 0;
    let mut left: usize = index;
    proof {
        assert(chars@.skip(0) =~= chars@);
    }
    while left > 0
        invariant
            chars@ == text@,
            n == chars@.len(),
            from <= chars@.len(),
            left < line_count(chars@.skip(from as int)),
            line(text@, index as nat) == line(chars@.skip(from as int), left as nat),
        decreases left,
    {
        let end = find_line_end(&chars, from);
        proof {
            let rest = chars@.skip(from as int);
            assert(line_count(rest) > 1);
            assert(line_end(rest) < rest.len());
            assert(rest.skip(end - from + 1) =~= chars@.skip(end + 1));
        }
        from = end + 1;
        left -= 1;
    }
    let end = find_line_end(&chars, from);
    let ghost whole = chars@.subrange(from as int, end as int);
    proof {
        assert(line(text@, index as nat) =~= whole);
        assert(whole.skip(0) =~= whole);
    }
    let mut start = from;
    while start < end && is_whitespace(chars[start])
        invariant
            from <= start <= end <= chars@.len(),
            whole == chars@.subrange(from as int, end as int),
            leading_spaces(whole) == (start - from) + leading_spaces(whole.skip(start - from)),
        decreases end - start,
    {
        proof {
            let here = whole.skip(start - from);
            assert(here[0] == chars@[start as int]);
            assert(here.skip(1) =~= whole.skip(start - from + 1));
        }
        start += 1;
    }
    proof {
        let here = whole.skip(start - from);
        if start < end {
            assert(here[0] == chars@[start as int]);
        }
        assert(leading_spaces(whole) == start - from);
    }
    let ghost rest = chars@.subrange(start as int, end as int);
    proof {
        assert(rest =~= whole.skip(leading_spaces(whole) as int));
        assert(rest.take(rest.len() as int) =~= rest);
    }
    let mut stop = end;
    while stop > start && is_whitespace(chars[stop - 1])
        invariant
            start <= stop <= end <= chars@.len(),
            rest == chars@.subrange(start as int, end as int),
            trailing_spaces(rest) == (end - stop) + trailing_spaces(rest.take(stop - start)),
        decreases stop - start,
    {
        proof {
            let here = rest.take(stop - start);
            assert(here.last() == chars@[stop - 1]);
            assert(here.drop_last() =~= rest.take(stop - start - 1));
        }
        stop -= 1;
    }
    proof {
        let here = rest.take(stop - start);
        if stop > start {
            assert(here.last() == chars@[stop - 1]);
        }
        assert(trailing_spaces(rest) == end - stop);
        assert(trimmed(whole) =~= chars@.subrange(start as int, stop as int));
    }
    text.substring_char(start, stop).to_owned()
}

/// Picks one line of `text` at random and returns it without the white
/// space around it.
pub fn pick_a_random_word(text: &str) -> (word: String)
    requires
        text@.len() < usize::MAX,
    ensures
        exists|index: nat| index < line_count(text@) && word@ == trimmed(#[trigger] line(text@, index)),
{
    let count = count_lines(text);
    let index = random_below(count);
    let word = word_at(text, index);
    assert(word@ == trimmed(line(text@, index as nat)));
    word
}

/// The position of the first letter `letter` of `secret` that is still
/// covered in `correct`.
pub open spec fn first_covered(letter: char, correct: Seq<char>, secret: Seq<char>, at: int) -> bool {
    &&& 0 <= at < secret.len()
    &&& secret[at] == letter
    &&& correct[at] == COVERED
    &&& forall|k: int| 0 <= k < at ==> !(secret[k] == letter && #[trigger] correct[k] == COVERED)
}

/// Whether the guess `letter` uncovers something.
pub open spec fn uncovers(letter: char, correct: Seq<char>, secret: Seq<char>) -> bool {
    exists|at: int| first_covered(letter, correct, secret, at)
}

/// What has been uncovered after the guess `letter`: the first covered
/// occurrence of the letter shows, if there is one.
pub open spec fn after_guess(letter: char, correct: Seq<char>, secret: Seq<char>) -> Seq<char> {
    if uncovers(letter, correct, secret) {
        correct.update(choose|at: int| first_covered(letter, correct, secret, at), letter)
    } else {
        correct
    }
}

/// Uncovers the first covered occurrence of `letter` in the secret word
/// and tells whether there was one.
pub fn check_guess(letter: char, correct: &mut Vec<char>, secret: &Vec<char>) -> (hit: bool)
    requires
        old(correct)@.len() >= secret@.len(),
    ensures
        hit == uncovers(letter, old(correct)@, secret@),
        final(correct)@ == after_guess(letter, old(correct)@, secret@),
{
    let mut i: usize = 0;
    while i < secret.len()
        invariant
            i <= secret@.len(),
            correct@ == old(correct)@,
            correct@.len() >= secret@.len(),
            forall|k: int| 0 <= k < i ==> !(secret@[k] == letter && #[trigger] correct@[k] == COVERED),
        decreases secret@.len() - i,
    {
        let c = secret[i];
        if c == letter && correct[i] == COVERED {
            proof {
                assert(first_covered(letter, correct@, secret@, i as int));
                let chosen = choose|at: int| first_covered(letter, correct@, secret@, at);
                if chosen < i {
                    assert(!(secret@[chosen] == letter && correct@[chosen] == COVERED));
                } else if i < chosen {
                    assert(!(secret@[i as int] == letter && correct@[i as int] == COVERED));
                }
            }
            correct.set(i, c);
            return true;
        }
        i += 1;
    }
    proof {
        if uncovers(letter, correct@, secret@) {
            let at = choose|at: int| first_covered(letter, correct@, secret@, at);
            assert(!(secret@[at] == letter && correct@[at] == COVERED));
        }
    }
    false
}

/// Takes the guess from a line typed by the player, its first character,
/// and notes it among the letters guessed. A line without any character
/// holds no guess.
pub fn do_guess(input: &str, guess: &mut Vec<char>) -> (letter: Option<char>)
    ensures
        input@.len() == 0 ==> letter is None && final(guess)@ == old(guess)@,
        input@.len() > 0 ==> letter == Some(input@[0]) && final(guess)@ == old(guess)@.push(
            input@[0],
        ),
{
    if input.unicode_len() == 0 {
        return None;
    }
    let letter = input.get_char(0);
    guess.push(letter);
    Some(letter)
}

/// A game in progress.
pub struct Hangman {
    secret: Vec<char>,
    correct: Vec<char>,
    guessed: Vec<char>,
    chances: u32,
    rest: usize,
}

/// What a game holds.
pub struct Game {
    /// The secret word.
    pub secret: Seq<char>,
    /// The word as the player sees it.
    pub correct: Seq<char>,
    /// The letters guessed so far.
    pub guessed: Seq<char>,
    /// The wrong guesses that the player can still afford.
    pub chances: nat,
    /// The right guesses that are still needed.
    pub rest: nat,
}

impl Game {
    /// Whether the game has ended.
    pub open spec fn over(self) -> bool {
        self.chances == 0 || self.rest == 0
    }

    /// Whether the player has won or can still win.
    pub open spec fn alive(self) -> bool {
        self.chances > 0
    }

    /// The game after the guess `letter`: the guess is noted; a hit
    /// uncovers one letter and is one guess less to make, a miss costs one
    /// chance.
    pub open spec fn guess(self, letter: char) -> Game {
        let hit = uncovers(letter, self.correct, self.secret);
        Game {
            secret: self.secret,
            correct: after_guess(letter, self.correct, self.secret),
            guessed: self.guessed.push(letter),
            chances: if hit {
                self.chances
            } else {
                (self.chances - 1) as nat
            },
            rest: if hit {
                (self.rest - 1) as nat
            } else {
                self.rest
            },
        }
    }
}

impl View for Hangman {
    type V = Game;

    closed spec fn view(&self) -> Game {
        Game {
            secret: self.secret@,
            correct: self.correct@,
            guessed: self.guessed@,
            chances: self.chances as nat,
            rest: self.rest as nat,
        }
    }
}

impl Hangman {
    /// Whether as many letters are shown, covered or not, as the secret
    /// word has.
    pub open spec fn well_formed(&self) -> bool {
        self@.correct.len() == self@.secret.len()
    }

    /// A new game on the word `secret`: every letter is covered.
    pub fn new(secret: Vec<char>) -> (game: Hangman)
        ensures
            game.well_formed(),
            game@.secret == secret@,
            game@.correct == Seq::new(secret@.len(), |i: int| COVERED),
            game@.guessed == Seq::<char>::empty(),
            game@.chances == NUM_INCORRECT_GUESSES,
            game@.rest == secret@.len(),
    {
        let rest = secret.len();
        let mut correct: Vec<char> = Vec::new();
        let mut i: usize = 0;
        while i < rest
            invariant
                i <= rest,
                correct@ == Seq::new(i as nat, |k: int| COVERED),
            decreases rest - i,
        {
            correct.push(COVERED);
            assert(correct@ =~= Seq::new((i + 1) as nat, |k: int| COVERED));
            i += 1;
        }
        Hangman { secret, correct, guessed: Vec::new(), chances: NUM_INCORRECT_GUESSES, rest }
    }

    /// Whether the game has ended.
    pub fn is_over(&self) -> (over: bool)
        ensures
            over == self@.over(),
    {
        self.chances == 0 || self.rest == 0
    }

    /// Whether the player has chances left: at the end of the game, whether
    /// the player has won.
    pub fn is_won(&self) -> (won: bool)
        ensures
            won == self@.alive(),
    {
        self.chances > 0
    }

    /// The wrong guesses that the player can still afford.
    pub fn chances(&self) -> (chances: u32)
        ensures
            chances == self@.chances,
    {
        self.chances
    }

    /// The word as the player sees it.
    pub fn correct(&self) -> (correct: &Vec<char>)
        ensures
            correct@ == self@.correct,
    {
        &self.correct
    }

    /// The letters guessed so far.
    pub fn guessed(&self) -> (guessed: &Vec<char>)
        ensures
            guessed@ == self@.guessed,
    {
        &self.guessed
    }

    /// Plays the guess in a line typed by the player, its first character,
    /// and tells whether it was a hit. A line without any character is no
    /// guess and changes nothing.
    pub fn guess(&mut self, input: &str) -> (hit: Option<bool>)
        requires
            old(self).well_formed(),
            !old(self)@.over(),
        ensures
            final(self).well_formed(),
            input@.len() == 0 ==> hit is None && final(self)@ == old(self)@,
            input@.len() > 0 ==> hit == Some(
                uncovers(input@[0], old(self)@.correct, old(self)@.secret),
            ) && final(self)@ == old(self)@.guess(input@[0]),
    {
        let letter = match do_guess(input, &mut self.guessed) {
            None => {
                return None;
            },
            Some(letter) => letter,
        };
        let hit = check_guess(letter, &mut self.correct, &self.secret);
        if hit {
            self.rest -= 1;
        } else {
            self.chances -= 1;
        }
        Some(hit)
    }
}

} // verus!
