//! Guessing a four-letter terminal code from the letters typed so far.
use vstd::prelude::*;

use crate::settings::{int_or, SettingsWindow};

verus! {

/// Whether `b` is an ASCII letter.
pub open spec fn is_letter(b: u8) -> bool {
    (97 <= b <= 122) || (65 <= b <= 90)
}

/// The upper-case form of an ASCII byte.
pub open spec fn upper(b: u8) -> u8 {
    if 97 <= b <= 122 { (b - 32) as u8 } else { b }
}

/// Whether the code at position `c` of the table `codes` (four bytes per
/// code) agrees with every letter of the typed text `typed`, compared in
/// upper case; characters that are not letters match anything.
pub open spec fn code_matches(codes: Seq<u8>, c: int, typed: Seq<u8>) -> bool {
    forall|id: int| 0 <= id < typed.len() && is_letter(#[trigger] typed[id]) ==> codes[c * 4 + id] == upper(typed[id])
}

/// Whether every letter of `typed` stands among its first four characters,
/// so that it can be compared with a four-letter code.
pub open spec fn letters_fit(typed: Seq<u8>) -> bool {
    forall|id: int| 0 <= id < typed.len() && is_letter(#[trigger] typed[id]) ==> id < 4
}

/// The indices of the first `limit` codes marked valid, in order.
pub open spec fn first_valid(valid: Seq<bool>, limit: nat) -> Seq<usize>
    decreases valid.len(),
{
    if valid.len() == 0 {
        Seq::empty()
    } else {
        let prev = first_valid(valid.drop_last(), limit);
        if valid.last() && prev.len() < limit {
            prev.push((valid.len() - 1) as usize)
        } else {
            prev
        }
    }
}

/// A code guesser over a table of four-letter codes.
#[derive(Debug)]
pub struct CodeGuess {
    pub selected: String,
    pub valid: Vec<bool>,
    pub max_lines: usize,
    pub codes_per_line: usize,
    /// The code table: four upper-case bytes per code, one after the other.
    pub codes: Vec<u8>,
}

impl CodeGuess {
    /// The bytes of the typed text.
    pub open spec fn typed_bytes(self) -> Seq<u8> {
        vstd::utf8::encode_utf8(self.selected@)
    }

    /// The number of codes in the table.
    pub open spec fn code_count(self) -> nat {
        self.codes@.len() / 4
    }

    /// A guesser over `codes` with nothing typed, every code still possible,
    /// showing `max_lines` lines of `codes_per_line` codes.
    pub fn new(codes: Vec<u8>, max_lines: usize, codes_per_line: usize) -> (g: CodeGuess)
        ensures
            g.selected@ == Seq::<char>::empty(),
            g.codes@ == codes@,
            g.valid@.len() == g.code_count(),
            forall|c: int| 0 <= c < g.valid@.len() ==> g.valid@[c],
            g.max_lines == max_lines,
            g.codes_per_line == codes_per_line,
    {
        let n = codes.len() / 4;
        let mut valid: Vec<bool> = Vec::new();
        let mut i: usize = 0;
        while i < n
            invariant
                i <= n,
                valid@.len() == i,
                forall|c: int| 0 <= c < i ==> valid@[c],
            decreases n - i,
        {
            valid.push(true);
            i += 1;
        }
        CodeGuess { selected: String::new(), valid, max_lines, codes_per_line, codes }
    }

    /// A guesser over `codes` with nothing typed, showing as many lines and
    /// codes per line as the settings give (three of each where missing).
    pub fn from_settings(codes: Vec<u8>, settings: &SettingsWindow) -> (g: CodeGuess)
        ensures
            g.selected@ == Seq::<char>::empty(),
            g.codes@ == codes@,
            g.valid@.len() == g.code_count(),
            forall|c: int| 0 <= c < g.valid@.len() ==> g.valid@[c],
            g.max_lines == int_or(*settings, "code_guess_line_count"@, 3) as usize,
            g.codes_per_line == int_or(*settings, "code_guess_word_count"@, 3) as usize,
    {
        let lines = match settings.get::<i32>("code_guess_line_count") {
            Some(n) => n,
            None => 3,
        };
        let words = match settings.get::<i32>("code_guess_word_count") {
            Some(n) => n,
            None => 3,
        };
        CodeGuess::new(codes, lines as usize, words as usize)
    }

    /// Marks as valid exactly the codes that agree with every letter typed.
    pub fn check(&mut self)
        requires
            old(self).codes@.len() == 4 * old(self).code_count(),
            letters_fit(old(self).typed_bytes()),
        ensures
            final(self).selected == old(self).selected,
            final(self).codes == old(self).codes,
            final(self).max_lines == old(self).max_lines,
            final(self).codes_per_line == old(self).codes_per_line,
            final(self).valid@.len() == old(self).code_count(),
            forall|c: int|
                0 <= c < final(self).valid@.len() ==> #[trigger] final(self).valid@[c] == code_matches(
                    old(self).codes@,
                    c,
                    old(self).typed_bytes(),
                ),
    {
        let len = self.codes.len();
        let n = len / 4;
        let typed = self.selected.as_str().as_bytes();
        let ghost t = typed@;
        let mut valid: Vec<bool> = Vec::new();
        let mut c: usize = 0;
        while c < n
            invariant
                n == self.code_count(),
                self.codes@.len() == 4 * n,
                len == self.codes@.len(),
                t == typed@,
                letters_fit(t),
                c <= n,
                valid@.len() == c,
                forall|k: int| 0 <= k < c ==> #[trigger] valid@[k] == code_matches(self.codes@, k, t),
            decreases n - c,
        {
            let mut ok = true;
            let mut id: usize = 0;
            while id < typed.len()
                invariant
                    n == self.code_count(),
                    self.codes@.len() == 4 * n,
                    len == self.codes@.len(),
                    t == typed@,
                    letters_fit(t),
                    c < n,
                    id <= t.len(),
                    ok == forall|j: int|
                        0 <= j < id && is_letter(#[trigger] t[j]) ==> self.codes@[c * 4 + j] == upper(t[j]),
                decreases t.len() - id,
            {
                let ch = typed[id];
                let up: u8 = if 97 <= ch && ch <= 122 { ch - 32 } else { ch };
                if 65 <= up && up <= 90 {
                    proof {
                        assert(is_letter(t[id as int]));
                        assert(id < 4);
                    }
                    if self.codes[c * 4 + id] != up {
                        ok = false;
                    }
                } else {
                    proof {
                        assert(!is_letter(t[id as int]));
                    }
                }
                id += 1;
            }
            valid.push(ok);
            c += 1;
        }
        self.valid = valid;
    }

    /// The indices of the codes to show: the first `max_lines *
    /// codes_per_line` valid codes, in table order.
    pub fn visible_codes(&self) -> (v: Vec<usize>)
        requires
            self.max_lines * self.codes_per_line <= usize::MAX,
        ensures
            v@ == first_valid(self.valid@, (self.max_lines * self.codes_per_line) as nat),
    {
        let limit = self.max_lines * self.codes_per_line;
        let mut v: Vec<usize> = Vec::new();
        let mut i: usize = 0;
        while i < self.valid.len()
            invariant
                limit == self.max_lines * self.codes_per_line,
                i <= self.valid@.len(),
                v@ == first_valid(self.valid@.take(i as int), limit as nat),
            decreases self.valid@.len() - i,
        {
            proof {
                assert(self.valid@.take(i + 1).drop_last() =~= self.valid@.take(i as int));
                lemma_first_valid_len(self.valid@.take(i as int), limit as nat);
            }
            if self.valid[i] && v.len() < limit {
                v.push(i);
            }
            i += 1;
        }
        proof {
            assert(self.valid@.take(i as int) =~= self.valid@);
        }
        v
    }

    /// The height the guesser takes on screen for `shown` codes.
    pub fn height(&self, shown: usize) -> (h: usize)
        requires
            self.codes_per_line > 0,
            27 + shown * 22 <= usize::MAX,
        ensures
            h == 27 + (if shown == 0 { 0 } else { shown - 1 }) as nat / self.codes_per_line as nat * 22,
    {
        let q = shown.saturating_sub(1) / self.codes_per_line;
        proof {
            assert(q <= shown) by (nonlinear_arith)
                requires
                    q == (if shown == 0 { 0 } else { shown - 1 }) as nat / self.codes_per_line as nat,
                    self.codes_per_line > 0,
            ;
        }
        27 + q * 22
    }
}

/// No more codes are shown than the limit allows.
pub proof fn lemma_first_valid_len(valid: Seq<bool>, limit: nat)
    ensures
        first_valid(valid, limit).len() <= limit,
        first_valid(valid, limit).len() <= valid.len(),
    decreases valid.len(),
{
    if valid.len() > 0 {
        lemma_first_valid_len(valid.drop_last(), limit);
    }
}

} // verus!
