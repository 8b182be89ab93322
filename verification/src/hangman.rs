//! The word-guessing game: picking the secret word from a list, and the rules
//! of a round.

use vstd::prelude::*;

verus! {

/// The number of wrong guesses that end a round.
pub const NUM_INCORRECT_GUESSES: u32 = 5;

/// The character shown for a letter that has not been found.
pub const BLANK: char = '_';

/// Whether `c` is white space: the characters with the Unicode property
/// White_Space.
pub open spec fn is_space(c: char) -> bool {
    let code = c as u32;
    ||| 0x09 <= code <= 0x0d
    ||| code == 0x20
    ||| code == 0x85
    ||| code == 0xa0
    ||| code == 0x1680
    ||| 0x2000 <= code <= 0x200a
    ||| code == 0x2028
    ||| code == 0x2029
    ||| code == 0x202f
    ||| code == 0x205f
    ||| code == 0x3000
}

/// The position of the first line break in `s` at or after `from`, or the
/// length of `s` where there is none.
pub open spec fn line_end(s: Seq<char>, from: int) -> int
    decreases s.len() - from,
{
    if from < 0 || from >= s.len() {
        s.len() as int
    } else if s[from] == '\n' {
        from
    } else {
        line_end(s, from + 1)
    }
}

/// The number of lines in `s` from position `from` on. Lines are parted by
/// line breaks, so a text has one line more than it has line breaks.
pub open spec fn lines_from(s: Seq<char>, from: int) -> nat
    decreases s.len() - from,
{
    if from < 0 || from >= s.len() {
        1
    } else if s[from] == '\n' {
        1 + lines_from(s, from + 1)
    } else {
        lines_from(s, from + 1)
    }
}

/// Line `index` of the lines of `s` from position `from` on, without its
/// line break. Empty where `s` has no such line.
pub open spec fn line_from(s: Seq<char>, from: int, index: nat) -> Seq<char>
    decreases s.len() - from,
{
    if from < 0 || from > s.len() {
        Seq::empty()
    } else if index == 0 {
        s.skip(from).take(line_end(s, from) - from)
    } else if from == s.len() {
        Seq::empty()
    } else if s[from] == '\n' {
        line_from(s, from + 1, (index - 1) as nat)
    } else {
        line_from(s, from + 1, index)
    }
}

/// The number of white space characters at the start of `s`.
pub open spec fn leading_spaces(s: Seq<char>) -> nat
    decreases s.len(),
{
    if s.len() > 0 && is_space(s[0]) {
        1 + leading_spaces(s.skip(1))
    } else {
        0
    }
}

/// The number of white space characters at the end of `s`.
pub open spec fn trailing_spaces(s: Seq<char>) -> nat
    decreases s.len(),
{
    if s.len() > 0 && is_space(s.last()) {
        1 + trailing_spaces(s.drop_last())
    } else {
        0
    }
}

/// `s` without the white space at its start and at its end.
pub open spec fn trimmed(s: Seq<char>) -> Seq<char> {
    let rest = s.skip(leading_spaces(s) as int);
    rest.take(rest.len() - trailing_spaces(rest))
}

/// The word on line `index` of `text`.
pub open spec fn word_on_line(text: Seq<char>, index: nat) -> Seq<char> {
    trimmed(line_from(text, 0, index))
}

/// Calls `rand::random_range` on the range from 0 to `max`, `max` included,
/// which draws from the thread's generator. The result lies in that range;
/// which number of it comes is left open.
#[verifier::external_body]
fn random_up_to(max: usize) -> (index: usize)
    ensures
        index <= max,
{
    rand::random_range(0..=max)
}

proof fn lemma_line_end_bounds(s: Seq<char>, from: int)
    requires
        0 <= from <= s.len(),
    ensures
        from <= line_end(s, from) <= s.len(),
        forall|k: int| from <= k < line_end(s, from) ==> s[k] != '\n',
        line_end(s, from) < s.len() ==> s[line_end(s, from)] == '\n',
    decreases s.len() - from,
{
    if from < s.len() && s[from] != '\n' {
        lemma_line_end_bounds(s, from + 1);
    }
}

proof fn lemma_leading_spaces_bounds(s: Seq<char>)
    ensures
        leading_spaces(s) <= s.len(),
        forall|k: int| 0 <= k < leading_spaces(s) ==> is_space(s[k]),
        leading_spaces(s) < s.len() ==> !is_space(s[leading_spaces(s) as int]),
    decreases s.len(),
{
    if s.len() > 0 && is_space(s[0]) {
        let rest = s.skip(1);
        lemma_leading_spaces_bounds(rest);
        assert forall|k: int| 0 <= k < leading_spaces(s) implies is_space(s[k]) by {
            if k > 0 {
                assert(rest[k - 1] == s[k]);
            }
        }
        if leading_spaces(s) < s.len() {
            assert(rest[leading_spaces(rest) as int] == s[leading_spaces(s) as int]);
        }
    }
}

proof fn lemma_trailing_spaces_bounds(s: Seq<char>)
    ensures
        trailing_spaces(s) <= s.len(),
        forall|k: int| s.len() - trailing_spaces(s) <= k < s.len() ==> is_space(s[k]),
        trailing_spaces(s) < s.len() ==> !is_space(s[s.len() - trailing_spaces(s) - 1]),
    decreases s.len(),
{
    if s.len() > 0 && is_space(s.last()) {
        let rest = s.drop_last();
        lemma_trailing_spaces_bounds(rest);
        assert forall|k: int| s.len() - trailing_spaces(s) <= k < s.len() implies is_space(
            s[k],
        ) by {
            if k < s.len() - 1 {
                assert(rest[k] == s[k]);
            }
        }
        if trailing_spaces(s) < s.len() {
            assert(rest[rest.len() - trailing_spaces(rest) - 1] == s[s.len() - trailing_spaces(s)
                - 1]);
        }
    }
}

/// White space that begins at `from` and ends where something else follows.
proof fn lemma_leading_spaces_is(s: Seq<char>, count: int)
    requires
        0 <= count <= s.len(),
        forall|k: int| 0 <= k < count ==> is_space(s[k]),
        count < s.len() ==> !is_space(s[count]),
    ensures
        leading_spaces(s) == count,
    decreases s.len(),
{
    if count > 0 {
        let rest = s.skip(1);
        assert forall|k: int| 0 <= k < count - 1 implies is_space(rest[k]) by {
            assert(rest[k] == s[k + 1]);
        }
        if count - 1 < rest.len() {
            assert(rest[count - 1] == s[count]);
        }
        lemma_leading_spaces_is(rest, count - 1);
    }
}

proof fn lemma_trailing_spaces_is(s: Seq<char>, count: int)
    requires
        0 <= count <= s.len(),
        forall|k: int| s.len() - count <= k < s.len() ==> is_space(s[k]),
        count < s.len() ==> !is_space(s[s.len() - count - 1]),
    ensures
        trailing_spaces(s) == count,
    decreases s.len(),
{
    if count > 0 {
        let rest = s.drop_last();
        assert forall|k: int| rest.len() - (count - 1) <= k < rest.len() implies is_space(
            rest[k],
        ) by {
            assert(rest[k] == s[k]);
        }
        if count - 1 < rest.len() {
            assert(rest[rest.len() - (count - 1) - 1] == s[s.len() - count - 1]);
        }
        lemma_trailing_spaces_is(rest, count - 1);
    }
}

/// Whether `c` is white space.
pub fn is_whitespace(c: char) -> (space: bool)
    ensures
        space == is_space(c),
{
    let code: u32 = c as u32;
    (0x09 <= code && code <= 0x0d) || code == 0x20 || code == 0x85 || code == 0xa0 || code
        == 0x1680 || (0x2000 <= code && code <= 0x200a) || code == 0x2028 || code == 0x2029
        || code == 0x202f || code == 0x205f || code == 0x3000
}

/// The number of line breaks in `text`, which is one less than the number
/// of its lines.
pub fn count_line_breaks(text: &Vec<char>) -> (count: usize)
    ensures
        count + 1 == lines_from(text@, 0),
{
    let mut count: usize = 0;
    let mut i: usize = 0;
    while i < text.len()
        invariant
            i <= text@.len(),
            count <= i,
            lines_from(text@, 0) == count + lines_from(text@, i as int),
        decreases text.len() - i,
    {
        if text[i] == '\n' {
            count += 1;
        }
        i += 1;
    }
    count
}

/// The word on line `index` of `text`: the line without the white space
/// around it.
pub fn word_at(text: &Vec<char>, index: usize) -> (word: Vec<char>)
    requires
        index < lines_from(text@, 0),
    ensures
        word@ == word_on_line(text@, index as nat),
{
    let n = text.len();
    let mut start: usize = 0;
    let mut k: usize = index;
    while k > 0
        invariant
            n == text@.len(),
            start <= text@.len(),
            k < lines_from(text@, start as int),
            line_from(text@, 0, index as nat) == line_from(text@, start as int, k as nat),
        decreases text@.len() - start,
    {
        assert(start < n);
        let at_break = text[start] == '\n';
        start += 1;
        if at_break {
            k -= 1;
        }
    }
    let mut end: usize = start;
    while end < text.len() && text[end] != '\n'
        invariant
            start <= end <= text@.len(),
            line_end(text@, start as int) == line_end(text@, end as int),
        decreases text.len() - end,
    {
        end += 1;
    }
    let ghost line = text@.subrange(start as int, end as int);
    proof {
        lemma_line_end_bounds(text@, end as int);
        assert(line =~= text@.skip(start as int).take(line_end(text@, start as int) - start));
    }
    let mut first: usize = start;
    while first < end && is_whitespace(text[first])
        invariant
            start <= first <= end <= text@.len(),
            forall|j: int| start <= j < first ==> is_space(text@[j]),
        decreases end - first,
    {
        first += 1;
    }
    proof {
        assert forall|j: int| 0 <= j < first - start implies is_space(line[j]) by {
            assert(line[j] == text@[start + j]);
        }
        lemma_leading_spaces_is(line, first - start);
    }
    let ghost rest = line.skip(first - start);
    assert(rest =~= text@.subrange(first as int, end as int));
    let mut last: usize = end;
    while last > first && is_whitespace(text[last - 1])
        invariant
            first <= last <= end <= text@.len(),
            forall|j: int| last <= j < end ==> is_space(text@[j]),
        decreases last - first,
    {
        last -= 1;
    }
    proof {
        assert forall|j: int| rest.len() - (end - last) <= j < rest.len() implies is_space(
            rest[j],
        ) by {
            assert(rest[j] == text@[first + j]);
        }
        if end - last < rest.len() {
            assert(rest[rest.len() - (end - last) - 1] == text@[last - 1]);
        }
        lemma_trailing_spaces_is(rest, end - last);
    }
    let mut word: Vec<char> = Vec::new();
    let mut i: usize = first;
    while i < last
        invariant
            first <= i <= last <= text@.len(),
            word@ == text@.subrange(first as int, i as int),
        decreases last - i,
    {
        word.push(text[i]);
        assert(word@ =~= text@.subrange(first as int, i + 1));
        i += 1;
    }
    assert(word@ =~= trimmed(line));
    word
}

/// Picks the word of the game: the word on a line of `text` that is drawn at
/// random.
pub fn pick_a_random_word(text: &Vec<char>) -> (word: Vec<char>)
    ensures
        exists|index: nat| index < lines_from(text@, 0) && word@ == word_on_line(text@, index),
{
    let index = random_up_to(count_line_breaks(text));
    let word = word_at(text, index);
    assert((index as nat) < lines_from(text@, 0) && word@ == word_on_line(text@, index as nat));
    word
}

/// How a round stands after a guess.
#[derive(Clone, Copy, Debug, PartialEq, Eq, Structural)]
pub enum Standing {
    /// The round goes on.
    Open,
    /// Every letter has been found.
    Won,
    /// No wrong guess is left.
    Lost,
}

/// A round, as plain values.
pub struct Round {
    /// The letters of the secret word that have not been found; a blank
    /// stands where one has been.
    pub hidden: Seq<char>,
    /// The word as the player sees it: the letters found, and blanks.
    pub shown: Seq<char>,
    /// Every letter guessed, in order.
    pub guessed: Seq<char>,
    /// The wrong guesses that are left.
    pub chances: u32,
    /// The number of good guesses.
    pub correct: nat,
}

/// The first position from `from` on at which `hidden` holds `c`.
pub open spec fn first_match(hidden: Seq<char>, c: char, from: int) -> Option<int>
    decreases hidden.len() - from,
{
    if from < 0 || from >= hidden.len() {
        None
    } else if hidden[from] == c {
        Some(from)
    } else {
        first_match(hidden, c, from + 1)
    }
}

/// The round after the letter `c` has been guessed. A letter that the hidden
/// word holds is uncovered at its first place there, and only there; a letter
/// that it does not hold costs one chance.
pub open spec fn after_guess(round: Round, c: char) -> Round {
    match first_match(round.hidden, c, 0) {
        Some(i) => Round {
            hidden: round.hidden.update(i, BLANK),
            shown: round.shown.update(i, c),
            guessed: round.guessed.push(c),
            chances: round.chances,
            correct: round.correct + 1,
        },
        None => Round {
            hidden: round.hidden,
            shown: round.shown,
            guessed: round.guessed.push(c),
            chances: (round.chances - 1) as u32,
            correct: round.correct,
        },
    }
}

/// How `round` stands: lost without a chance left, and else won once there
/// are as many good guesses as the word has letters.
pub open spec fn standing(round: Round) -> Standing {
    if round.chances == 0 {
        Standing::Lost
    } else if round.correct == round.shown.len() {
        Standing::Won
    } else {
        Standing::Open
    }
}

/// A round of the game.
pub struct Hangman {
    hidden: Vec<char>,
    shown: Vec<char>,
    guessed: Vec<char>,
    chances: u32,
    correct: usize,
}

impl View for Hangman {
    type V = Round;

    closed spec fn view(&self) -> Round {
        Round {
            hidden: self.hidden@,
            shown: self.shown@,
            guessed: self.guessed@,
            chances: self.chances,
            correct: self.correct as nat,
        }
    }
}

impl Hangman {
    /// The invariant of a round.
    pub open spec fn wf(&self) -> bool {
        &&& self@.hidden.len() == self@.shown.len()
        &&& self@.correct <= self@.shown.len()
        &&& self@.guessed.len() == 0 ==> self@.correct == 0
    }

    /// Whether a guess may be made: a chance is left, and a letter is still
    /// to be found or nothing has been guessed yet.
    pub open spec fn can_guess(&self) -> bool {
        self@.chances > 0 && (self@.correct < self@.shown.len() || self@.guessed.len() == 0)
    }

    /// A new round for the word `secret`: every letter is hidden, and all
    /// chances are left.
    pub fn new(secret: Vec<char>) -> (game: Hangman)
        ensures
            game.wf(),
            game.can_guess(),
            game@ == (Round {
                hidden: secret@,
                shown: Seq::new(secret@.len(), |i: int| BLANK),
                guessed: Seq::empty(),
                chances: NUM_INCORRECT_GUESSES,
                correct: 0,
            }),
    {
        let mut shown: Vec<char> = Vec::new();
        let mut i: usize = 0;
        while i < secret.len()
            invariant
                i <= secret@.len(),
                shown@ == Seq::new(i as nat, |j: int| BLANK),
            decreases secret.len() - i,
        {
            shown.push(BLANK);
            assert(shown@ =~= Seq::new((i + 1) as nat, |j: int| BLANK));
            i += 1;
        }
        Hangman {
            hidden: secret,
            shown,
            guessed: Vec::new(),
            chances: NUM_INCORRECT_GUESSES,
            correct: 0,
        }
    }

    /// The word as the player sees it.
    pub fn word_so_far(&self) -> (shown: &Vec<char>)
        ensures
            shown@ == self@.shown,
    {
        &self.shown
    }

    /// The letters guessed so far.
    pub fn guessed_letters(&self) -> (guessed: &Vec<char>)
        ensures
            guessed@ == self@.guessed,
    {
        &self.guessed
    }

    /// The wrong guesses that are left.
    pub fn chances_left(&self) -> (chances: u32)
        ensures
            chances == self@.chances,
    {
        self.chances
    }

    /// Takes the guess `c`. Returns whether the hidden word held the letter,
    /// and how the round stands now.
    pub fn guess(&mut self, c: char) -> (r: (bool, Standing))
        requires
            old(self).wf(),
            old(self).can_guess(),
        ensures
            final(self).wf(),
            final(self)@ == after_guess(old(self)@, c),
            r.0 == (first_match(old(self)@.hidden, c, 0) is Some),
            r.1 == standing(final(self)@),
            r.1 == Standing::Open ==> final(self).can_guess(),
    {
        let ghost before = self@;
        let mut found = false;
        let mut i: usize = 0;
        while i < self.hidden.len()
            invariant_except_break
                !found,
                first_match(before.hidden, c, 0) == first_match(before.hidden, c, i as int),
            invariant
                i <= before.hidden.len(),
                self@ == before,
            ensures
                found ==> i < before.hidden.len() && first_match(before.hidden, c, 0) == Some(
                    i as int,
                ),
                !found ==> first_match(before.hidden, c, 0) is None,
                self@ == before,
            decreases self.hidden.len() - i,
        {
            if self.hidden[i] == c {
                found = true;
                break;
            }
            i += 1;
        }
        self.guessed.push(c);
        let letters = self.shown.len();
        if found {
            assert(self.correct < letters);
            self.shown.set(i, c);
            self.hidden.set(i, BLANK);
            self.correct += 1;
        } else {
            self.chances -= 1;
        }
        let standing = if self.chances == 0 {
            Standing::Lost
        } else if self.correct == letters {
            Standing::Won
        } else {
            Standing::Open
        };
        (found, standing)
    }
}

} // verus!
