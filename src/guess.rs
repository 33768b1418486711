use vstd::prelude::*;
use rand::Rng;
use crate::text::{decimal, decimal_text, with_number};

verus! {

/// The smallest number that can be drawn.
pub const LOWEST: u32 = 1;

/// The largest number that can be drawn.
pub const HIGHEST: u32 = 100;

/// Relies on `Rng::gen_range` (rand 0.8) on the thread-local generator: a value of the
/// inclusive range `lo..=hi`, which must not be empty.
#[verifier::external_body]
fn random_in(lo: u32, hi: u32) -> (r: u32)
    requires
        lo <= hi,
    ensures
        lo <= r <= hi,
{
    rand::thread_rng().gen_range(lo..=hi)
}

/// The answer to one guess.
#[derive(Debug)]
pub struct GuessResponse {
    pub message: String,
    pub attempts: u32,
    pub correct: bool,
    pub range: (u32, u32),
}

/// The number-guessing game: a secret number and the range narrowed so far.
#[derive(Debug)]
pub struct GuessGameState {
    pub target_number: u32,
    pub attempts: u32,
    pub max_attempts: u32,
    pub min_number: u32,
    pub max_number: u32,
}

/// The message for a right guess.
pub open spec fn hit_message(target: u32) -> Seq<char> {
    "🎉 恭喜你！数字就是 "@ + decimal(target as nat) + "！"@
}

/// The message for a guess below the secret.
pub open spec fn low_message(lo: u32, hi: u32) -> Seq<char> {
    "太小了！试试 "@ + decimal(lo as nat + 1) + " 到 "@ + decimal(hi as nat) + " 之间的数字"@
}

/// The message for a guess above the secret.
pub open spec fn high_message(lo: u32, hi: u32) -> Seq<char> {
    "太大了！试试 "@ + decimal(lo as nat) + " 到 "@ + decimal((hi - 1) as nat) + " 之间的数字"@
}

impl GuessGameState {
    /// The secret lies in the drawing range, and the bounds leave room for the messages.
    pub open spec fn wf(&self) -> bool {
        &&& LOWEST <= self.target_number <= HIGHEST
        &&& self.min_number <= HIGHEST
        &&& self.max_number >= 1
    }

    /// A fresh game with a random secret in `1..=100` and ten attempts.
    pub fn new() -> (r: Self)
        ensures
            r.wf(),
            r.attempts == 0,
            r.max_attempts == 10,
            r.min_number == LOWEST,
            r.max_number == HIGHEST,
    {
        GuessGameState {
            target_number: random_in(LOWEST, HIGHEST),
            attempts: 0,
            max_attempts: 10,
            min_number: LOWEST,
            max_number: HIGHEST,
        }
    }

    /// Draws a new secret and clears the count of attempts; the range stays.
    pub fn reset(&mut self)
        ensures
            old(self).min_number <= HIGHEST && old(self).max_number >= 1 ==> final(self).wf(),
            LOWEST <= final(self).target_number <= HIGHEST,
            final(self).attempts == 0,
            final(self).max_attempts == old(self).max_attempts,
            final(self).min_number == old(self).min_number,
            final(self).max_number == old(self).max_number,
    {
        self.target_number = random_in(LOWEST, HIGHEST);
        self.attempts = 0;
    }

    /// Takes a guess. A right guess is answered with the count of attempts and starts a
    /// new secret; a wrong one narrows the range toward the secret and says which way.
    pub fn guess(&mut self, number: u32) -> (r: GuessResponse)
        requires
            old(self).wf(),
            old(self).attempts < u32::MAX,
        ensures
            final(self).wf(),
            final(self).max_attempts == old(self).max_attempts,
            r.attempts == old(self).attempts + 1,
            r.correct == (number == old(self).target_number),
            number == old(self).target_number ==> {
                &&& r.message@ == hit_message(old(self).target_number)
                &&& r.range == (old(self).min_number, old(self).max_number)
                &&& final(self).attempts == 0
                &&& final(self).min_number == old(self).min_number
                &&& final(self).max_number == old(self).max_number
            },
            number < old(self).target_number ==> {
                let lo = if number > old(self).min_number {
                    number
                } else {
                    old(self).min_number
                };
                &&& r.message@ == low_message(lo, old(self).max_number)
                &&& r.range == (lo, old(self).max_number)
                &&& final(self).attempts == old(self).attempts + 1
                &&& final(self).target_number == old(self).target_number
                &&& final(self).min_number == lo
                &&& final(self).max_number == old(self).max_number
            },
            number > old(self).target_number ==> {
                let hi = if number < old(self).max_number {
                    number
                } else {
                    old(self).max_number
                };
                &&& r.message@ == high_message(old(self).min_number, hi)
                &&& r.range == (old(self).min_number, hi)
                &&& final(self).attempts == old(self).attempts + 1
                &&& final(self).target_number == old(self).target_number
                &&& final(self).min_number == old(self).min_number
                &&& final(self).max_number == hi
            },
    {
        self.attempts = self.attempts + 1;
        if number == self.target_number {
            let text = with_number("🎉 恭喜你！数字就是 ", self.target_number as u64).concat("！");
            let response = GuessResponse {
                message: text,
                attempts: self.attempts,
                correct: true,
                range: (self.min_number, self.max_number),
            };
            self.reset();
            response
        } else if number < self.target_number {
            if number > self.min_number {
                self.min_number = number;
            }
            let head = with_number("太小了！试试 ", self.min_number as u64 + 1).concat(" 到 ");
            let tail = decimal_text(self.max_number as u64);
            let text = head.concat(tail.as_str()).concat(" 之间的数字");
            GuessResponse {
                message: text,
                attempts: self.attempts,
                correct: false,
                range: (self.min_number, self.max_number),
            }
        } else {
            if number < self.max_number {
                self.max_number = number;
            }
            let head = with_number("太大了！试试 ", self.min_number as u64).concat(" 到 ");
            let tail = decimal_text(self.max_number as u64 - 1);
            let text = head.concat(tail.as_str()).concat(" 之间的数字");
            GuessResponse {
                message: text,
                attempts: self.attempts,
                correct: false,
                range: (self.min_number, self.max_number),
            }
        }
    }
}

} // verus!
