use crate::emulator::instructions::Token;
use crate::emulator::register::RegisterOp;
use crate::EmulatorErr;
use vstd::prelude::*;
use vstd::string::*;

verus! {

/// The characters of each string of a list.
pub open spec fn text(strings: Seq<String>) -> Seq<Seq<char>> {
    Seq::new(strings.len(), |i: int| strings[i]@)
}

/// The words of one line: what stands between its spaces. A line without a
/// space is one word; two spaces in a row, or a space at either end, enclose
/// an empty word.
pub open spec fn split_words(line: Seq<char>) -> Seq<Seq<char>>
    decreases line.len(),
{
    if line.len() == 0 {
        seq![Seq::empty()]
    } else {
        let before = split_words(line.drop_last());
        if line.last() == ' ' {
            before.push(Seq::empty())
        } else {
            before.drop_last().push(before.last().push(line.last()))
        }
    }
}

/// The words of all lines, in order.
pub open spec fn words_of(lines: Seq<Seq<char>>) -> Seq<Seq<char>>
    decreases lines.len(),
{
    if lines.len() == 0 {
        Seq::empty()
    } else {
        words_of(lines.drop_last()) + split_words(lines.last())
    }
}

/// The number that a string of binary digits denotes, most significant first.
pub open spec fn bits_value(digits: Seq<char>) -> nat
    decreases digits.len(),
{
    if digits.len() == 0 {
        0
    } else {
        2 * bits_value(digits.drop_last()) + if digits.last() == '1' {
            1nat
        } else {
            0nat
        }
    }
}

/// The digits of an immediate: the word without its `+` sign, if it has one.
pub open spec fn digits_of(word: Seq<char>) -> Seq<char> {
    if word.len() > 0 && word[0] == '+' {
        word.subrange(1, word.len() as int)
    } else {
        word
    }
}

/// The value of an immediate: at least one binary digit after an optional
/// `+`, denoting a number that fits in eight bits.
pub open spec fn immediate(word: Seq<char>) -> Option<u8> {
    let digits = digits_of(word);
    if digits.len() > 0 && (forall|i: int|
        0 <= i < digits.len() ==> digits[i] == '0' || digits[i] == '1') && bits_value(digits)
        <= 255 {
        Some(bits_value(digits) as u8)
    } else {
        None
    }
}

/// How many words an instruction takes up in program text.
pub open spec fn width(token: Token) -> int {
    match token {
        Token::Add(_, _) | Token::Mov(_, _) | Token::MovAB | Token::MovBA => 3,
        _ => 2,
    }
}

/// A register name followed by an immediate, as `add` and `mov` take them.
pub open spec fn register_and_immediate(lhs: Seq<char>, rhs: Seq<char>) -> Result<
    (RegisterOp, u8),
    EmulatorErr,
> {
    match RegisterOp::named_by(lhs) {
        None => Err(EmulatorErr::InvalidRegister),
        Some(register) => match immediate(rhs) {
            None => Err(EmulatorErr::InvalidImmediate),
            Some(value) => Ok((register, value)),
        },
    }
}

/// The instruction whose mnemonic is the word at position `at`.
pub open spec fn instruction_at(words: Seq<Seq<char>>, at: int) -> Result<Token, EmulatorErr>
    recommends
        0 <= at < words.len(),
{
    let mnemonic = words[at];
    if mnemonic == seq!['m', 'o', 'v'] {
        if at + 2 >= words.len() {
            Err(EmulatorErr::MissingOperand)
        } else if words[at + 1] == seq!['A'] && words[at + 2] == seq!['B'] {
            Ok(Token::MovBA)
        } else if words[at + 1] == seq!['B'] && words[at + 2] == seq!['A'] {
            Ok(Token::MovAB)
        } else {
            match register_and_immediate(words[at + 1], words[at + 2]) {
                Ok((register, value)) => Ok(Token::Mov(register, value)),
                Err(e) => Err(e),
            }
        }
    } else if mnemonic == seq!['a', 'd', 'd'] {
        if at + 2 >= words.len() {
            Err(EmulatorErr::MissingOperand)
        } else {
            match register_and_immediate(words[at + 1], words[at + 2]) {
                Ok((register, value)) => Ok(Token::Add(register, value)),
                Err(e) => Err(e),
            }
        }
    } else if mnemonic == seq!['j', 'm', 'p'] {
        if at + 1 >= words.len() {
            Err(EmulatorErr::MissingOperand)
        } else {
            match immediate(words[at + 1]) {
                Some(value) => Ok(Token::Jmp(value)),
                None => Err(EmulatorErr::InvalidImmediate),
            }
        }
    } else if mnemonic == seq!['j', 'n', 'c'] {
        if at + 1 >= words.len() {
            Err(EmulatorErr::MissingOperand)
        } else {
            match immediate(words[at + 1]) {
                Some(value) => Ok(Token::Jnc(value)),
                None => Err(EmulatorErr::InvalidImmediate),
            }
        }
    } else if mnemonic == seq!['i', 'n'] {
        if at + 1 >= words.len() {
            Err(EmulatorErr::MissingOperand)
        } else {
            match RegisterOp::named_by(words[at + 1]) {
                Some(register) => Ok(Token::In(register)),
                None => Err(EmulatorErr::InvalidRegister),
            }
        }
    } else if mnemonic == seq!['o', 'u', 't'] {
        if at + 1 >= words.len() {
            Err(EmulatorErr::MissingOperand)
        } else if words[at + 1] == seq!['B'] {
            Ok(Token::OutB)
        } else {
            match immediate(words[at + 1]) {
                Some(value) => Ok(Token::OutIm(value)),
                None => Err(EmulatorErr::InvalidImmediate),
            }
        }
    } else {
        Err(EmulatorErr::InvalidInstruction)
    }
}

/// What reading a word list from some position yields.
pub struct Scan {
    /// The instructions read, in order.
    pub tokens: Seq<Token>,
    /// Where reading stopped: the end of the words, or the mnemonic of the
    /// instruction that could not be read.
    pub stop: int,
    /// Why reading stopped before the end, if it did.
    pub error: Option<EmulatorErr>,
}

/// Reads instructions from position `at` on, one after the other, until the
/// words run out or one cannot be read.
pub open spec fn scan(words: Seq<Seq<char>>, at: int) -> Scan
    decreases words.len() - at,
{
    if at < 0 || at >= words.len() {
        Scan { tokens: Seq::empty(), stop: at, error: None }
    } else {
        match instruction_at(words, at) {
            Err(e) => Scan { tokens: Seq::empty(), stop: at, error: Some(e) },
            Ok(token) => {
                let rest = scan(words, at + width(token));
                Scan { tokens: seq![token] + rest.tokens, stop: rest.stop, error: rest.error }
            },
        }
    }
}

/// Splitting a line that was put together from words without spaces gives
/// those words back: the words of a line are the only such words that make
/// it up.
pub proof fn lemma_split_words_of_join(words: Seq<Seq<char>>)
    requires
        words.len() >= 1,
        forall|i: int, j: int| 0 <= i < words.len() && 0 <= j < words[i].len() ==> words[i][j] != ' ',
    ensures
        split_words(join_words(words)) == words,
    decreases words.len(), words.last().len(),
{
    let line = join_words(words);
    let last = words.last();
    let init = words.drop_last();
    if last.len() == 0 {
        assert(last =~= Seq::empty());
        assert(words =~= init.push(last));
        if words.len() > 1 {
            lemma_split_words_of_join(init);
            assert(line =~= join_words(init).push(' '));
            assert(line.drop_last() =~= join_words(init));
        }
    } else {
        let shorter = init.push(last.drop_last());
        assert(shorter.last() == last.drop_last());
        assert(shorter.drop_last() =~= init);
        assert forall|i: int, j: int|
            0 <= i < shorter.len() && 0 <= j < shorter[i].len() implies shorter[i][j] != ' ' by {
            if i < init.len() {
                assert(shorter[i] == words[i]);
            } else {
                assert(shorter[i][j] == words[words.len() - 1][j]);
            }
        }
        lemma_split_words_of_join(shorter);
        assert(last.drop_last().push(last.last()) =~= last);
        assert(last.last() == words[words.len() - 1][last.len() - 1]);
        if words.len() == 1 {
            assert(join_words(shorter) == last.drop_last());
            assert(line.drop_last() =~= join_words(shorter));
        } else {
            assert(join_words(shorter) == join_words(init) + seq![' '] + last.drop_last());
            assert(line.drop_last() =~= join_words(shorter));
        }
        assert(line.last() == last.last());
        assert(split_words(line) =~= words);
    }
}

/// A longer string of digits never denotes less than a part of it taken from
/// its front.
proof fn lemma_bits_value_grows(digits: Seq<char>, front: int)
    requires
        0 <= front <= digits.len(),
    ensures
        bits_value(digits.take(front)) <= bits_value(digits),
    decreases digits.len(),
{
    if front == digits.len() {
        assert(digits.take(front) =~= digits);
    } else {
        assert(digits.drop_last().take(front) =~= digits.take(front));
        lemma_bits_value_grows(digits.drop_last(), front);
    }
}

/// Every line has a first word, even the empty line.
pub proof fn lemma_split_words_nonempty(line: Seq<char>)
    ensures
        split_words(line).len() >= 1,
    decreases line.len(),
{
    if line.len() > 0 {
        lemma_split_words_nonempty(line.drop_last());
    }
}

/// Words put back into a line, with one space between neighbours.
pub open spec fn join_words(words: Seq<Seq<char>>) -> Seq<char>
    decreases words.len(),
{
    if words.len() == 0 {
        Seq::empty()
    } else if words.len() == 1 {
        words[0]
    } else {
        join_words(words.drop_last()) + seq![' '] + words.last()
    }
}

/// The words of a line hold no space, and put back together they are the
/// line.
pub proof fn lemma_split_words_undoes_join(line: Seq<char>)
    ensures
        forall|i: int, j: int|
            0 <= i < split_words(line).len() && 0 <= j < split_words(line)[i].len()
                ==> split_words(line)[i][j] != ' ',
        join_words(split_words(line)) == line,
    decreases line.len(),
{
    if line.len() == 0 {
        assert(join_words(split_words(line)) =~= line);
    } else {
        let before = split_words(line.drop_last());
        let words = split_words(line);
        lemma_split_words_undoes_join(line.drop_last());
        lemma_split_words_nonempty(line.drop_last());
        if line.last() == ' ' {
            assert(words.drop_last() =~= before);
            assert(join_words(words) =~= line.drop_last().push(' '));
        } else {
            let word = before.last().push(line.last());
            assert(words.last() == word);
            if before.len() == 1 {
                assert(join_words(words) =~= line.drop_last().push(line.last()));
            } else {
                assert(words.drop_last() =~= before.drop_last());
                assert(join_words(before) == join_words(before.drop_last()) + seq![' ']
                    + before.last());
                assert(join_words(words) =~= join_words(before).push(line.last()));
            }
            assert forall|i: int, j: int|
                0 <= i < words.len() && 0 <= j < words[i].len() implies words[i][j] != ' ' by {
                if i < words.len() - 1 {
                    assert(words[i] == before[i]);
                } else if j < before.last().len() {
                    assert(words[i][j] == before[before.len() - 1][j]);
                }
            }
        }
        assert(line.drop_last().push(line.last()) =~= line);
    }
}

/// Whether two strings hold the same characters.
fn same_text(a: &str, b: &str) -> (same: bool)
    ensures
        same == (a@ == b@),
{
    let n = a.unicode_len();
    if n != b.unicode_len() {
        return false;
    }
    let mut i: usize = 0;
    while i < n
        invariant
            i <= n,
            n == a@.len(),
            n == b@.len(),
            forall|k: int| 0 <= k < i ==> a@[k] == b@[k],
        decreases n - i,
    {
        if a.get_char(i) != b.get_char(i) {
            return false;
        }
        i += 1;
    }
    assert(a@ =~= b@);
    true
}

/// Appends the words of `line` to `words`.
fn split_line(line: &str, words: &mut Vec<String>)
    ensures
        text(final(words)@) == text(old(words)@) + split_words(line@),
{
    let n = line.unicode_len();
    let ghost before = text(words@);
    let mut start: usize = 0;
    let mut i: usize = 0;
    assert(line@.take(0) =~= Seq::empty());
    assert(line@.subrange(0, 0) =~= Seq::empty());
    assert(before.push(Seq::empty()) =~= before + split_words(line@.take(0)));
    while i < n
        invariant
            start <= i <= n,
            n == line@.len(),
            text(words@).push(line@.subrange(start as int, i as int)) == before + split_words(
                line@.take(i as int),
            ),
        decreases n - i,
    {
        let ghost done = text(words@);
        let ghost word = line@.subrange(start as int, i as int);
        let ghost seen = split_words(line@.take(i as int));
        proof {
            lemma_split_words_nonempty(line@.take(i as int));
            assert(line@.take(i + 1).drop_last() =~= line@.take(i as int));
            assert(line@.take(i + 1).last() == line@[i as int]);
        }
        if line.get_char(i) == ' ' {
            words.push(String::from_str(line.substring_char(start, i)));
            start = i + 1;
            proof {
                assert(text(words@) =~= done.push(word));
                assert(line@.subrange(start as int, i + 1) =~= Seq::empty());
                assert(split_words(line@.take(i + 1)) == seen.push(Seq::empty()));
                assert(before + seen.push(Seq::empty()) =~= (before + seen).push(Seq::empty()));
            }
        } else {
            proof {
                assert(line@.subrange(start as int, i + 1) =~= word.push(line@[i as int]));
                assert(split_words(line@.take(i + 1)) == seen.drop_last().push(
                    seen.last().push(line@[i as int]),
                ));
                assert((before + seen).last() == seen.last());
                assert((before + seen).drop_last() =~= before + seen.drop_last());
                assert(done.push(word).drop_last() =~= done);
                assert(before + seen.drop_last().push(seen.last().push(line@[i as int]))
                    =~= (before + seen.drop_last()).push(seen.last().push(line@[i as int])));
            }
        }
        i += 1;
    }
    let ghost done = text(words@);
    words.push(String::from_str(line.substring_char(start, n)));
    proof {
        assert(line@.take(n as int) =~= line@);
        assert(text(words@) =~= done.push(line@.subrange(start as int, n as int)));
    }
}

/// Reads mnemonic text into instructions, word by word.
#[derive(Debug)]
pub struct Parser {
    /// The position of the next word to read.
    pub index: usize,
    /// The words of the program text.
    pub opcodes: Vec<String>,
}

impl Parser {
    /// The words held, as characters.
    pub open spec fn words(&self) -> Seq<Seq<char>> {
        text(self.opcodes@)
    }

    /// Splits each line of program text at its spaces and starts at the
    /// first word.
    pub fn new(operations: Vec<String>) -> (parser: Parser)
        ensures
            parser.index == 0,
            parser.words() == words_of(text(operations@)),
    {
        let mut opcodes: Vec<String> = Vec::new();
        let mut i: usize = 0;
        assert(text(operations@).take(0) =~= Seq::empty());
        assert(text(opcodes@) =~= Seq::empty());
        while i < operations.len()
            invariant
                i <= operations.len(),
                text(opcodes@) == words_of(text(operations@).take(i as int)),
            decreases operations.len() - i,
        {
            proof {
                let lines = text(operations@);
                assert(lines.take(i + 1).drop_last() =~= lines.take(i as int));
                assert(lines.take(i + 1).last() == operations@[i as int]@);
            }
            split_line(operations[i].as_str(), &mut opcodes);
            i += 1;
        }
        assert(text(operations@).take(i as int) =~= text(operations@));
        Parser { index: 0, opcodes }
    }

    /// Reads the instructions from the current position to the end of the
    /// words. On success the position is the end of the words; on failure it
    /// is the mnemonic of the instruction that could not be read, and the
    /// error says what is wrong with it.
    pub fn parse(&mut self) -> (res: Result<Vec<Token>, EmulatorErr>)
        ensures
            final(self).opcodes == old(self).opcodes,
            final(self).index == scan(old(self).words(), old(self).index as int).stop,
            match scan(old(self).words(), old(self).index as int).error {
                None => res matches Ok(tokens) && tokens@ == scan(
                    old(self).words(),
                    old(self).index as int,
                ).tokens,
                Some(e) => res == Err::<Vec<Token>, EmulatorErr>(e),
            },
    {
        let mut results: Vec<Token> = Vec::new();
        let ghost words = self.words();
        let ghost whole = scan(words, self.index as int);
        assert(Seq::<Token>::empty() + whole.tokens =~= whole.tokens);
        loop
            invariant
                self.opcodes == old(self).opcodes,
                words == self.words(),
                whole == scan(words, old(self).index as int),
                whole.tokens == results@ + scan(words, self.index as int).tokens,
                whole.stop == scan(words, self.index as int).stop,
                whole.error == scan(words, self.index as int).error,
            decreases self.opcodes.len() - self.index,
        {
            if self.index >= self.opcodes.len() {
                assert(results@ + Seq::<Token>::empty() =~= results@);
                return Ok(results);
            }
            let ghost rest = scan(words, self.index as int);
            match self.instruction(self.index) {
                Err(e) => {
                    return Err(e);
                },
                Ok(token) => {
                    let used: usize = match token {
                        Token::Add(_, _) | Token::Mov(_, _) | Token::MovAB | Token::MovBA => 3,
                        _ => 2,
                    };
                    proof {
                        let after = scan(words, self.index + used);
                        assert(rest.tokens == seq![token] + after.tokens);
                        assert(results@ + (seq![token] + after.tokens) =~= results@.push(token)
                            + after.tokens);
                    }
                    results.push(token);
                    self.index = self.index + used;
                },
            }
        }
    }

    /// Reads the instruction whose mnemonic is the word at position `at`.
    fn instruction(&self, at: usize) -> (res: Result<Token, EmulatorErr>)
        requires
            at < self.opcodes.len(),
        ensures
            res == instruction_at(self.words(), at as int),
            res matches Ok(token) ==> at + width(token) <= self.opcodes.len(),
    {
        let left = self.opcodes.len() - at;
        let mnemonic = self.opcodes[at].as_str();
        proof {
            reveal_strlit("mov");
            reveal_strlit("add");
            reveal_strlit("jmp");
            reveal_strlit("jnc");
            reveal_strlit("in");
            reveal_strlit("out");
            reveal_strlit("A");
            reveal_strlit("B");
            assert("mov"@ =~= seq!['m', 'o', 'v']);
            assert("add"@ =~= seq!['a', 'd', 'd']);
            assert("jmp"@ =~= seq!['j', 'm', 'p']);
            assert("jnc"@ =~= seq!['j', 'n', 'c']);
            assert("in"@ =~= seq!['i', 'n']);
            assert("out"@ =~= seq!['o', 'u', 't']);
            assert("A"@ =~= seq!['A']);
            assert("B"@ =~= seq!['B']);
        }
        if same_text(mnemonic, "mov") {
            if left < 3 {
                return Err(EmulatorErr::MissingOperand);
            }
            let lhs = &self.opcodes[at + 1];
            let rhs = &self.opcodes[at + 2];
            if same_text(lhs.as_str(), "A") && same_text(rhs.as_str(), "B") {
                Ok(Token::MovBA)
            } else if same_text(lhs.as_str(), "B") && same_text(rhs.as_str(), "A") {
                Ok(Token::MovAB)
            } else {
                let register = RegisterOp::from(lhs.clone())?;
                let value = self.binary_to_decimal(rhs)?;
                Ok(Token::Mov(register, value))
            }
        } else if same_text(mnemonic, "add") {
            if left < 3 {
                return Err(EmulatorErr::MissingOperand);
            }
            let register = RegisterOp::from(self.opcodes[at + 1].clone())?;
            let value = self.binary_to_decimal(&self.opcodes[at + 2])?;
            Ok(Token::Add(register, value))
        } else if same_text(mnemonic, "jmp") {
            if left < 2 {
                return Err(EmulatorErr::MissingOperand);
            }
            let value = self.binary_to_decimal(&self.opcodes[at + 1])?;
            Ok(Token::Jmp(value))
        } else if same_text(mnemonic, "jnc") {
            if left < 2 {
                return Err(EmulatorErr::MissingOperand);
            }
            let value = self.binary_to_decimal(&self.opcodes[at + 1])?;
            Ok(Token::Jnc(value))
        } else if same_text(mnemonic, "in") {
            if left < 2 {
                return Err(EmulatorErr::MissingOperand);
            }
            let register = RegisterOp::from(self.opcodes[at + 1].clone())?;
            Ok(Token::In(register))
        } else if same_text(mnemonic, "out") {
            if left < 2 {
                return Err(EmulatorErr::MissingOperand);
            }
            let operand = &self.opcodes[at + 1];
            if same_text(operand.as_str(), "B") {
                Ok(Token::OutB)
            } else {
                let value = self.binary_to_decimal(operand)?;
                Ok(Token::OutIm(value))
            }
        } else {
            Err(EmulatorErr::InvalidInstruction)
        }
    }

    /// Reads an immediate: binary digits, most significant first, after an
    /// optional `+` sign.
    fn binary_to_decimal(&self, text: &String) -> (res: Result<u8, EmulatorErr>)
        ensures
            res == match immediate(text@) {
                Some(value) => Ok::<u8, EmulatorErr>(value),
                None => Err(EmulatorErr::InvalidImmediate),
            },
    {
        let s = text.as_str();
        let n = s.unicode_len();
        let start: usize = if n > 0 && s.get_char(0) == '+' {
            1
        } else {
            0
        };
        let ghost digits = digits_of(text@);
        if start == n {
            return Err(EmulatorErr::InvalidImmediate);
        }
        let mut value: u8 = 0;
        let mut i: usize = start;
        assert(digits.take(0) =~= Seq::empty());
        while i < n
            invariant
                start <= i <= n,
                n == s@.len(),
                s@ == text@,
                digits == digits_of(text@),
                digits.len() == n - start,
                forall|k: int| 0 <= k < digits.len() ==> digits[k] == s@[k + start],
                forall|k: int| 0 <= k < i - start ==> digits[k] == '0' || digits[k] == '1',
                value == bits_value(digits.take(i - start)),
            decreases n - i,
        {
            let c = s.get_char(i);
            if c != '0' && c != '1' {
                assert(digits[i - start] == c);
                return Err(EmulatorErr::InvalidImmediate);
            }
            proof {
                assert(digits.take(i + 1 - start).drop_last() =~= digits.take(i - start));
                assert(digits.take(i + 1 - start).last() == c);
            }
            if value > 127 {
                proof {
                    lemma_bits_value_grows(digits, i + 1 - start);
                }
                return Err(EmulatorErr::InvalidImmediate);
            }
            value = value * 2 + if c == '1' {
                1
            } else {
                0
            };
            i += 1;
        }
        assert(digits.take(n - start) =~= digits);
        Ok(value)
    }
}

} // verus!
