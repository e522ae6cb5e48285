//! The key guesser panel: the letters typed for a key code, as the
//! (position, letter) pairs a key guess is narrowed by, and the room the
//! list of guesses takes.
use vstd::prelude::*;
use vstd::string::StringExecFns;

verus! {

/// The lower-case form of an ASCII letter; nothing for any other byte.
pub open spec fn letter_lower(b: u8) -> Option<u8> {
    if 97 <= b <= 122 {
        Some(b)
    } else if 65 <= b <= 90 {
        Some((b + 32) as u8)
    } else {
        None
    }
}

/// The (position, lower-case letter) pairs of the letters of `bytes`, in
/// order; the position is counted modulo 256.
pub open spec fn typed_keys(bytes: Seq<u8>) -> Seq<(u8, u8)>
    decreases bytes.len(),
{
    if bytes.len() == 0 {
        Seq::empty()
    } else {
        typed_keys(bytes.drop_last()) + match letter_lower(bytes.last()) {
            Some(l) => seq![(((bytes.len() - 1) as int) as u8, l)],
            None => Seq::empty(),
        }
    }
}

/// Whether a list of `len` guesses, `cpl` per line, takes `l` lines when at
/// most `max` are shown: the first line count that holds them all, or `max`.
pub open spec fn lines_taken(len: nat, cpl: nat, max: nat, l: nat) -> bool {
    &&& l <= max
    &&& (l < max ==> len <= l * cpl)
    &&& forall|k: nat| k < l ==> len > #[trigger] (k * cpl)
}

/// The key guesser panel.
#[derive(Debug)]
pub struct KeyGuesserVisual {
    pub codes_per_line: usize,
    pub max_lines: usize,
    pub key_guess_input_string: String,
    /// The (position, letter) pairs the guess is narrowed by.
    pub keys: Vec<(u8, u8)>,
}

impl KeyGuesserVisual {
    /// A panel showing `max_lines` lines of `codes_per_line` guesses, with
    /// "----" typed and so no letter known.
    pub fn new(codes_per_line: usize, max_lines: usize) -> (k: KeyGuesserVisual)
        ensures
            k.codes_per_line == codes_per_line,
            k.max_lines == max_lines,
            k.key_guess_input_string@ == "----"@,
            k.keys@.len() == 0,
    {
        KeyGuesserVisual {
            codes_per_line,
            max_lines,
            key_guess_input_string: String::from_str("----"),
            keys: Vec::new(),
        }
    }

    /// Takes the text typed: each letter, in lower case, with its position
    /// among the bytes of the text.
    pub fn set_input(&mut self, input: String)
        ensures
            final(self).key_guess_input_string == input,
            final(self).keys@ == typed_keys(vstd::utf8::encode_utf8(input@)),
            final(self).codes_per_line == old(self).codes_per_line,
            final(self).max_lines == old(self).max_lines,
    {
        let bytes = input.as_str().as_bytes();
        let ghost b = bytes@;
        let mut keys: Vec<(u8, u8)> = Vec::new();
        let mut id: usize = 0;
        assert(b.take(0) =~= Seq::<u8>::empty());
        while id < bytes.len()
            invariant
                b == bytes@,
                id <= b.len(),
                keys@ == typed_keys(b.take(id as int)),
            decreases bytes.len() - id,
        {
            let key = bytes[id];
            proof {
                assert(b.take(id + 1).drop_last() =~= b.take(id as int));
                assert(b.take(id + 1).last() == key);
            }
            let pos = (id % 256) as u8;
            proof {
                assert(pos == (id as int) as u8) by (bit_vector)
                    requires
                        pos == (id % 256) as u8,
                ;
            }
            if 97 <= key && key <= 122 {
                keys.push((pos, key));
            }
            if 65 <= key && key <= 90 {
                keys.push((pos, key + 32));
            }
            proof {
                assert(keys@ =~= typed_keys(b.take(id + 1)));
            }
            id += 1;
        }
        assert(b.take(id as int) =~= b);
        self.key_guess_input_string = input;
        self.keys = keys;
    }

    /// The height the list of `len` guesses takes: 27, and 22 for each line
    /// it takes (the first line count that holds them all, at most the
    /// number of lines shown).
    pub fn list_height(&self, len: usize) -> (h: usize)
        requires
            self.max_lines * self.codes_per_line <= usize::MAX,
            27 + self.max_lines * 22 <= usize::MAX,
        ensures
            exists|l: nat|
                lines_taken(len as nat, self.codes_per_line as nat, self.max_lines as nat, l) && h == 27 + l * 22,
    {
        let max = self.max_lines;
        let cpl = self.codes_per_line;
        let mut line: usize = 0;
        let mut acc: usize = 0;
        while line < max
            invariant
                max == self.max_lines,
                cpl == self.codes_per_line,
                max * cpl <= usize::MAX,
                27 + max * 22 <= usize::MAX,
                line <= max,
                acc == line * cpl,
                forall|k: nat| k < line ==> len > #[trigger] (k * cpl),
            decreases max - line,
        {
            if len <= acc {
                proof {
                    assert(lines_taken(len as nat, cpl as nat, max as nat, line as nat));
                    assert(line * 22 <= max * 22) by (nonlinear_arith)
                        requires
                            line <= max,
                    ;
                }
                return 27 + line * 22;
            }
            proof {
                assert((line + 1) * cpl <= max * cpl) by (nonlinear_arith)
                    requires
                        line + 1 <= max,
                ;
                assert((line + 1) * cpl == line * cpl + cpl) by (nonlinear_arith);
                assert forall|k: nat| k < line + 1 implies len > #[trigger] (k * cpl) by {
                    if k == line {
                        assert(k * cpl == acc);
                    }
                }
            }
            acc = acc + cpl;
            line += 1;
        }
        proof {
            assert(lines_taken(len as nat, cpl as nat, max as nat, max as nat));
        }
        27 + max * 22
    }
}

} // verus!
