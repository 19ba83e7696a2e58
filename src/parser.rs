//! Reading commands from the text of a module.

use crate::code::{arith_named, TranslateError};
use crate::text::str_eq;
use vstd::prelude::*;

verus! {

/// The kinds of command.
#[allow(non_camel_case_types)]
#[derive(Clone, Copy, Debug, PartialEq, Eq, Structural)]
pub enum CommandType {
    ARITHMETIC,
    PUSH,
    POP,
    LABEL,
    GOTO,
    IF,
    FUNCTION,
    RETURN,
    CALL,
}

/// The white space that separates words.
pub open spec fn is_space(c: char) -> bool {
    c == ' ' || c == '\t' || c == '\r' || c == '\n' || c == '\x0B' || c == '\x0C'
}

/// The words of `s`: its maximal runs of characters that are not white
/// space, in order. Each character either ends the text read so far with
/// white space, extends the last word, or starts a new one.
pub open spec fn words(s: Seq<char>) -> Seq<Seq<char>>
    decreases s.len(),
{
    if s.len() == 0 {
        Seq::empty()
    } else {
        let w = words(s.drop_last());
        let c = s.last();
        if is_space(c) {
            w
        } else if s.len() >= 2 && !is_space(s[s.len() - 2]) {
            w.update(w.len() - 1, w.last().push(c))
        } else {
            w.push(seq![c])
        }
    }
}

/// The characters of each string.
pub open spec fn views(v: Seq<String>) -> Seq<Seq<char>> {
    v.map_values(|w: String| w@)
}

fn is_space_char(c: char) -> (r: bool)
    ensures
        r == is_space(c),
{
    c == ' ' || c == '\t' || c == '\r' || c == '\n' || c == '\x0B' || c == '\x0C'
}

proof fn lemma_words_step(s: Seq<char>, i: int)
    requires
        0 <= i < s.len(),
    ensures
        s.subrange(0, i + 1).drop_last() == s.subrange(0, i),
        s.subrange(0, i + 1).last() == s[i],
        i >= 1 ==> s.subrange(0, i + 1)[i - 1] == s[i - 1],
{
    assert(s.subrange(0, i + 1).drop_last() =~= s.subrange(0, i));
}

/// See [`words`].
pub fn split_words(s: &str) -> (r: Vec<String>)
    ensures
        views(r@) == words(s@),
{
    let n = s.unicode_len();
    let mut out: Vec<String> = Vec::new();
    let mut start: usize = 0;
    let mut in_word = false;
    let mut i: usize = 0;
    while i < n
        invariant
            n == s@.len(),
            start <= i <= n,
            in_word ==> start < i && !is_space(s@[i - 1]),
            !in_word ==> i == 0 || is_space(s@[i - 1]),
            views(out@) + (if in_word {
                seq![s@.subrange(start as int, i as int)]
            } else {
                Seq::empty()
            }) == words(s@.subrange(0, i as int)),
        decreases n - i,
    {
        let c = s.get_char(i);
        proof {
            lemma_words_step(s@, i as int);
        }
        let ghost before = words(s@.subrange(0, i as int));
        let ghost old_out = views(out@);
        if is_space_char(c) {
            if in_word {
                out.push(s.substring_char(start, i).to_owned());
                assert(views(out@) =~= old_out.push(s@.subrange(start as int, i as int)));
                in_word = false;
            }
            assert(views(out@) + Seq::<Seq<char>>::empty() =~= before);
        } else if !in_word {
            start = i;
            in_word = true;
            assert(s@.subrange(start as int, i + 1) =~= seq![c]);
            assert(views(out@) + seq![s@.subrange(start as int, i + 1)] =~= before.push(seq![c]));
        } else {
            assert(s@.subrange(start as int, i + 1) =~= s@.subrange(start as int, i as int).push(c));
            assert(views(out@) + seq![s@.subrange(start as int, i + 1)] =~= before.update(
                before.len() - 1,
                before.last().push(c),
            ));
        }
        i = i + 1;
    }
    if in_word {
        let ghost old_out = views(out@);
        out.push(s.substring_char(start, n).to_owned());
        assert(views(out@) =~= old_out.push(s@.subrange(start as int, n as int)));
    }
    assert(s@.subrange(0, n as int) =~= s@);
    assert(views(out@) =~= words(s@));
    out
}

/// The value of a text of decimal digits.
pub open spec fn digits_value(s: Seq<char>) -> int
    decreases s.len(),
{
    if s.len() == 0 {
        0
    } else {
        digits_value(s.drop_last()) * 10 + (s.last() as int - '0' as int)
    }
}

/// Whether a character is a decimal digit.
pub open spec fn is_digit(c: char) -> bool {
    '0' <= c <= '9'
}

/// The number a word spells: one or more decimal digits whose value fits a
/// signed 16-bit word.
pub open spec fn number_value(s: Seq<char>) -> Option<i16> {
    if s.len() > 0 && (forall|k: int| 0 <= k < s.len() ==> is_digit(#[trigger] s[k]))
        && 0 <= digits_value(s) <= 0x7fff {
        Some(digits_value(s) as i16)
    } else {
        None
    }
}

/// See [`number_value`].
pub fn parse_number(s: &str) -> (r: Option<i16>)
    ensures
        r == number_value(s@),
{
    let n = s.unicode_len();
    if n == 0 {
        return None;
    }
    let mut acc: u32 = 0;
    let mut i: usize = 0;
    while i < n
        invariant
            n == s@.len(),
            i <= n,
            forall|k: int| 0 <= k < i ==> is_digit(#[trigger] s@[k]),
            digits_value(s@.subrange(0, i as int)) >= 0,
            acc == if digits_value(s@.subrange(0, i as int)) <= 0x8000 {
                digits_value(s@.subrange(0, i as int))
            } else {
                0x8000
            },
        decreases n - i,
    {
        let c = s.get_char(i);
        if !('0' <= c && c <= '9') {
            return None;
        }
        proof {
            assert(s@.subrange(0, i + 1).drop_last() =~= s@.subrange(0, i as int));
        }
        let d = (c as u32) - ('0' as u32);
        let next = acc * 10 + d;
        acc = if next > 0x8000 {
            0x8000
        } else {
            next
        };
        i = i + 1;
    }
    assert(s@.subrange(0, n as int) =~= s@);
    if acc > 0x7fff {
        None
    } else {
        Some(acc as i16)
    }
}

/// The kind of command that a line's words spell, or `MalformedCommand`
/// where they spell none: an unknown keyword, or operands of the wrong
/// number or kind.
pub open spec fn command_kind(w: Seq<Seq<char>>) -> Result<CommandType, TranslateError> {
    if w.len() == 0 {
        Err(TranslateError::MalformedCommand)
    } else if arith_named(w[0]) is Some {
        if w.len() == 1 {
            Ok(CommandType::ARITHMETIC)
        } else {
            Err(TranslateError::MalformedCommand)
        }
    } else if w[0] == "return"@ {
        if w.len() == 1 {
            Ok(CommandType::RETURN)
        } else {
            Err(TranslateError::MalformedCommand)
        }
    } else if w[0] == "label"@ || w[0] == "goto"@ || w[0] == "if-goto"@ {
        if w.len() != 2 {
            Err(TranslateError::MalformedCommand)
        } else if w[0] == "label"@ {
            Ok(CommandType::LABEL)
        } else if w[0] == "goto"@ {
            Ok(CommandType::GOTO)
        } else {
            Ok(CommandType::IF)
        }
    } else if w[0] == "push"@ || w[0] == "pop"@ || w[0] == "function"@ || w[0] == "call"@ {
        if w.len() != 3 || number_value(w[2]) is None {
            Err(TranslateError::MalformedCommand)
        } else if w[0] == "push"@ {
            Ok(CommandType::PUSH)
        } else if w[0] == "pop"@ {
            Ok(CommandType::POP)
        } else if w[0] == "function"@ {
            Ok(CommandType::FUNCTION)
        } else {
            Ok(CommandType::CALL)
        }
    } else {
        Err(TranslateError::MalformedCommand)
    }
}

/// The first argument of a well-formed command: the operator of an
/// arithmetic command, the word after the keyword of any other but
/// `return`, which has none.
pub open spec fn first_arg(w: Seq<Seq<char>>) -> Option<Seq<char>> {
    match command_kind(w) {
        Ok(CommandType::RETURN) => None,
        Ok(CommandType::ARITHMETIC) => Some(w[0]),
        Ok(_) => Some(w[1]),
        Err(_) => None,
    }
}

/// The second argument: the number of a `push`, `pop`, `function` or `call`,
/// none for the other commands, and the error of a malformed command (such
/// as one whose number is missing, not a number, or too large).
pub open spec fn second_arg(w: Seq<Seq<char>>) -> Result<Option<i16>, TranslateError> {
    match command_kind(w) {
        Ok(CommandType::PUSH) | Ok(CommandType::POP) | Ok(CommandType::FUNCTION) | Ok(
            CommandType::CALL,
        ) => Ok(number_value(w[2])),
        Ok(_) => Ok(None),
        Err(e) => Err(e),
    }
}

fn kind_of(w: &Vec<String>) -> (r: Result<CommandType, TranslateError>)
    ensures
        r == command_kind(views(w@)),
{
    let ghost v = views(w@);
    if w.len() == 0 {
        return Err(TranslateError::MalformedCommand);
    }
    let k = w[0].as_str();
    assert(k@ == v[0]);
    if crate::code_writer::arith_from(k).is_some() {
        if w.len() == 1 {
            Ok(CommandType::ARITHMETIC)
        } else {
            Err(TranslateError::MalformedCommand)
        }
    } else if str_eq(k, "return") {
        if w.len() == 1 {
            Ok(CommandType::RETURN)
        } else {
            Err(TranslateError::MalformedCommand)
        }
    } else if str_eq(k, "label") || str_eq(k, "goto") || str_eq(k, "if-goto") {
        if w.len() != 2 {
            Err(TranslateError::MalformedCommand)
        } else if str_eq(k, "label") {
            Ok(CommandType::LABEL)
        } else if str_eq(k, "goto") {
            Ok(CommandType::GOTO)
        } else {
            Ok(CommandType::IF)
        }
    } else if str_eq(k, "push") || str_eq(k, "pop") || str_eq(k, "function") || str_eq(k, "call") {
        if w.len() != 3 {
            return Err(TranslateError::MalformedCommand);
        }
        assert(w[2]@ == v[2]);
        if parse_number(w[2].as_str()).is_none() {
            Err(TranslateError::MalformedCommand)
        } else if str_eq(k, "push") {
            Ok(CommandType::PUSH)
        } else if str_eq(k, "pop") {
            Ok(CommandType::POP)
        } else if str_eq(k, "function") {
            Ok(CommandType::FUNCTION)
        } else {
            Ok(CommandType::CALL)
        }
    } else {
        Err(TranslateError::MalformedCommand)
    }
}

/// The index of the first `'\n'` at or after `i`, or the text's length.
pub open spec fn line_end(s: Seq<char>, i: nat) -> nat
    decreases s.len() - i,
{
    if i >= s.len() {
        s.len()
    } else if s[i as int] == '\n' {
        i
    } else {
        line_end(s, i + 1)
    }
}

/// Where the code of the line that goes on at `i` ends: at the line's end,
/// or where a `//` comment starts.
pub open spec fn code_end(s: Seq<char>, i: nat) -> nat
    decreases s.len() - i,
{
    if i >= s.len() || s[i as int] == '\n' {
        if i >= s.len() {
            s.len()
        } else {
            i
        }
    } else if s[i as int] == '/' && i + 1 < s.len() && s[i + 1int] == '/' {
        i
    } else {
        code_end(s, i + 1)
    }
}

/// Where the line after the one that starts at `i` starts.
pub open spec fn next_line(s: Seq<char>, i: nat) -> nat {
    if line_end(s, i) < s.len() {
        line_end(s, i) + 1
    } else {
        s.len()
    }
}

/// The next command at or after line start `i`: the code of the first line
/// there that holds a word, and where the line after it starts. Blank lines
/// and lines that hold only a comment are passed over.
pub open spec fn next_command(s: Seq<char>, i: nat) -> Option<(Seq<char>, nat)>
    decreases s.len() - i,
{
    if i >= s.len() || next_line(s, i) <= i {
        None
    } else {
        let code = s.subrange(i as int, code_end(s, i) as int);
        if words(code).len() > 0 {
            Some((code, next_line(s, i)))
        } else {
            next_command(s, next_line(s, i))
        }
    }
}

proof fn lemma_words_blank(s: Seq<char>)
    ensures
        words(s).len() == 0 <==> forall|k: int| 0 <= k < s.len() ==> is_space(#[trigger] s[k]),
    decreases s.len(),
{
    if s.len() > 0 {
        let t = s.drop_last();
        lemma_words_blank(t);
        if words(s).len() == 0 {
            assert forall|k: int| 0 <= k < s.len() implies is_space(#[trigger] s[k]) by {
                if k < s.len() - 1 {
                    assert(t[k] == s[k]);
                }
            }
        }
        if forall|k: int| 0 <= k < s.len() ==> is_space(#[trigger] s[k]) {
            assert forall|k: int| 0 <= k < t.len() implies is_space(#[trigger] t[k]) by {
                assert(t[k] == s[k]);
            }
        }
    }
}

/// A command found from line start `i` lies after it, and the line after it
/// starts within the text.
pub proof fn lemma_next_command_advances(s: Seq<char>, i: nat)
    ensures
        next_command(s, i) matches Some((c, q)) ==> i < q <= s.len(),
    decreases s.len() - i,
{
    if i < s.len() && next_line(s, i) > i {
        lemma_line_bounds(s, i);
        lemma_next_command_advances(s, next_line(s, i));
    }
}

proof fn lemma_line_bounds(s: Seq<char>, i: nat)
    requires
        i <= s.len(),
    ensures
        i <= code_end(s, i) <= line_end(s, i) <= s.len(),
        i < s.len() ==> next_line(s, i) > i,
        next_line(s, i) <= s.len(),
    decreases s.len() - i,
{
    if i < s.len() {
        lemma_line_bounds(s, i + 1);
    }
}

/// Reads the commands of a module's text, one line at a time.
pub struct Parser {
    text: String,
    ascii: bool,
    pos: usize,
    current_command: String,
    words: Vec<String>,
}

impl Parser {
    /// The text being read.
    pub closed spec fn text(&self) -> Seq<char> {
        self.text@
    }

    /// Where the line after the current command starts.
    pub closed spec fn pos(&self) -> nat {
        self.pos as nat
    }

    /// The current command: its line up to any comment.
    pub closed spec fn command(&self) -> Seq<char> {
        self.current_command@
    }

    /// The parser's own fields agree with one another.
    pub closed spec fn wf(&self) -> bool {
        &&& self.ascii == vstd::string::string_is_ascii(&self.text)
        &&& self.pos <= self.text@.len()
        &&& views(self.words@) == words(self.current_command@)
    }

    /// A parser at the start of `input`, with no current command.
    pub fn new(input: &str) -> (p: Self)
        ensures
            p.wf(),
            p.text() == input@,
            p.pos() == 0,
            p.command() == Seq::<char>::empty(),
    {
        let text = input.to_owned();
        let ascii = text.as_str().is_ascii();
        let p = Parser { text, ascii, pos: 0, current_command: String::new(), words: Vec::new() };
        assert(views(p.words@) =~= words(Seq::<char>::empty()));
        p
    }

    fn char_at(&self, i: usize) -> (c: char)
        requires
            self.wf(),
            i < self.text@.len(),
        ensures
            c == self.text@[i as int],
    {
        if self.ascii {
            let b = self.text.as_str().get_ascii(i);
            let c = b as char;
            assert('\0' <= self.text@[i as int] <= '\u{7f}');
            c
        } else {
            self.text.as_str().get_char(i)
        }
    }

    fn slice(&self, from: usize, to: usize) -> (r: String)
        requires
            self.wf(),
            from <= to <= self.text@.len(),
        ensures
            r@ == self.text@.subrange(from as int, to as int),
    {
        if self.ascii {
            self.text.as_str().substring_ascii(from, to).to_owned()
        } else {
            self.text.as_str().substring_char(from, to).to_owned()
        }
    }

    /// Where the code of the line at `i` ends, and where the next line starts.
    fn scan_line(&self, i: usize) -> (r: (usize, usize))
        requires
            self.wf(),
            i <= self.text@.len(),
        ensures
            r.0 == code_end(self.text@, i as nat),
            r.1 == next_line(self.text@, i as nat),
    {
        let n = self.text.as_str().unicode_len();
        let ghost s = self.text@;
        let mut k = i;
        while k < n && self.char_at(k) != '\n' && !(self.char_at(k) == '/' && k + 1 < n
            && self.char_at(k + 1) == '/')
            invariant
                self.wf(),
                n == s.len(),
                s == self.text@,
                i <= k <= n,
                code_end(s, i as nat) == code_end(s, k as nat),
                line_end(s, i as nat) == line_end(s, k as nat),
            decreases n - k,
        {
            k = k + 1;
        }
        let code = k;
        while k < n && self.char_at(k) != '\n'
            invariant
                self.wf(),
                n == s.len(),
                s == self.text@,
                i <= k <= n,
                line_end(s, i as nat) == line_end(s, k as nat),
            decreases n - k,
        {
            k = k + 1;
        }
        let next = if k < n {
            k + 1
        } else {
            n
        };
        (code, next)
    }

    fn has_word(&self, from: usize, to: usize) -> (r: bool)
        requires
            self.wf(),
            from <= to <= self.text@.len(),
        ensures
            r == (words(self.text@.subrange(from as int, to as int)).len() > 0),
    {
        let ghost t = self.text@.subrange(from as int, to as int);
        proof {
            lemma_words_blank(t);
        }
        let mut k = from;
        while k < to
            invariant
                self.wf(),
                from <= k <= to <= self.text@.len(),
                t == self.text@.subrange(from as int, to as int),
                forall|j: int| from <= j < k ==> is_space(#[trigger] self.text@[j]),
            decreases to - k,
        {
            if !is_space_char(self.char_at(k)) {
                assert(t[k - from] == self.text@[k as int]);
                assert(!is_space(t[k - from]));
                proof {
                    lemma_words_blank(t);
                }
                return true;
            }
            k = k + 1;
        }
        assert forall|j: int| 0 <= j < t.len() implies is_space(#[trigger] t[j]) by {
            assert(t[j] == self.text@[j + from]);
        }
        false
    }

    /// Finds the next command from line start `from`: where its code starts
    /// and ends, and where the line after it starts.
    fn find_command(&self, from: usize) -> (r: Option<(usize, usize, usize)>)
        requires
            self.wf(),
            from <= self.text@.len(),
        ensures
            match next_command(self.text@, from as nat) {
                None => r is None,
                Some((code, next)) => r matches Some((a, b, c)) && a <= b <= self.text@.len()
                    && self.text@.subrange(a as int, b as int) == code && c == next && c
                    <= self.text@.len(),
            },
    {
        let n = self.text.as_str().unicode_len();
        let mut i = from;
        while i < n
            invariant
                self.wf(),
                n == self.text@.len(),
                from <= i <= n,
                next_command(self.text@, from as nat) == next_command(self.text@, i as nat),
            decreases n - i,
        {
            proof {
                lemma_line_bounds(self.text@, i as nat);
            }
            let (code, next) = self.scan_line(i);
            if self.has_word(i, code) {
                return Some((i, code, next));
            }
            i = next;
        }
        None
    }

    /// Whether a command follows the current one.
    pub fn has_more_lines(&self) -> (r: bool)
        requires
            self.wf(),
        ensures
            r == next_command(self.text(), self.pos()) is Some,
    {
        self.find_command(self.pos).is_some()
    }

    /// Makes the next command the current one, passing over blank lines and
    /// comments. Where no command follows, nothing changes.
    pub fn advance(&mut self)
        requires
            old(self).wf(),
        ensures
            final(self).wf(),
            final(self).text() == old(self).text(),
            match next_command(old(self).text(), old(self).pos()) {
                None => final(self).command() == old(self).command() && final(self).pos() == old(
                    self,
                ).pos(),
                Some((code, next)) => final(self).command() == code && final(self).pos() == next,
            },
    {
        match self.find_command(self.pos) {
            Some((a, b, c)) => {
                let command = self.slice(a, b);
                self.words = split_words(command.as_str());
                self.current_command = command;
                self.pos = c;
            },
            None => {},
        }
    }

    /// The current command's text, without its comment.
    pub fn current_command(&self) -> (r: &str)
        ensures
            r@ == self.command(),
    {
        self.current_command.as_str()
    }

    /// The kind of the current command, or `MalformedCommand` where its words
    /// spell no command.
    pub fn command_type(&self) -> (r: Result<CommandType, TranslateError>)
        requires
            self.wf(),
        ensures
            r == command_kind(words(self.command())),
    {
        kind_of(&self.words)
    }

    /// The first argument of the current command: the operator of an
    /// arithmetic command; `None` for `return` and for a malformed command.
    pub fn arg1(&self) -> (r: Option<&str>)
        requires
            self.wf(),
        ensures
            match first_arg(words(self.command())) {
                None => r is None,
                Some(a) => r matches Some(x) && x@ == a,
            },
    {
        let ghost w = views(self.words@);
        match kind_of(&self.words) {
            Ok(CommandType::RETURN) => None,
            Ok(CommandType::ARITHMETIC) => {
                assert(self.words[0]@ == w[0]);
                Some(self.words[0].as_str())
            },
            Ok(_) => {
                assert(self.words[1]@ == w[1]);
                Some(self.words[1].as_str())
            },
            Err(_) => None,
        }
    }

    /// The second argument of the current command: its number where it is a
    /// `push`, `pop`, `function` or `call`, none for other commands, and
    /// `MalformedCommand` where the command is malformed.
    pub fn arg2(&self) -> (r: Result<Option<i16>, TranslateError>)
        requires
            self.wf(),
        ensures
            r == second_arg(words(self.command())),
    {
        let ghost w = views(self.words@);
        match kind_of(&self.words) {
            Ok(CommandType::PUSH) | Ok(CommandType::POP) | Ok(CommandType::FUNCTION) | Ok(
                CommandType::CALL,
            ) => {
                assert(self.words[2]@ == w[2]);
                Ok(parse_number(self.words[2].as_str()))
            },
            Ok(_) => Ok(None),
            Err(e) => Err(e),
        }
    }
}

} // verus!
