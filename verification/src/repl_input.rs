//! Input handling for the interactive prompt: which lines are commands,
//! when a block of several lines starts and when it is complete, and what
//! a `:` command asks for.  The prompt itself (reading lines, running code,
//! printing) stays with the program; it hands each line here and gets back
//! what to do with it.
use crate::lexer::{char_is_whitespace, is_whitespace, lemma_scan_while, scan_while, skip_ws};
use crate::text::{chars_of, push_char};
use vstd::prelude::*;

verus! {

broadcast use vstd::string::group_string_axioms;

/// Whether `p` occurs in `s` starting at position `i`.
pub open spec fn occurs_at(s: Seq<char>, i: int, p: Seq<char>) -> bool {
    0 <= i && i + p.len() <= s.len() && s.subrange(i, i + p.len()) == p
}

/// Whether `s` starts with `p`.
pub open spec fn starts_with(s: Seq<char>, p: Seq<char>) -> bool {
    occurs_at(s, 0, p)
}

/// Whether `p` occurs anywhere in `s`.
pub open spec fn contains(s: Seq<char>, p: Seq<char>) -> bool {
    exists|i: int| occurs_at(s, i, p)
}

/// Whether `s` ends with a colon.
pub open spec fn ends_with_colon(s: Seq<char>) -> bool {
    s.len() > 0 && s.last() == ':'
}

/// The end of `s[lo..hi]` once the whitespace at its end is dropped.
pub open spec fn trim_end_at(s: Seq<char>, lo: int, hi: int) -> int
    decreases hi - lo,
{
    if hi <= lo || !is_whitespace(s[hi - 1]) {
        hi
    } else {
        trim_end_at(s, lo, hi - 1)
    }
}

/// `s` without the whitespace at either end.
pub open spec fn trimmed(s: Seq<char>) -> Seq<char> {
    let a = skip_ws(s, 0) as int;
    s.subrange(a, trim_end_at(s, a, s.len() as int))
}

/// The position of the last newline in `s[..j]`, or -1 if there is none.
pub open spec fn last_newline(s: Seq<char>, j: int) -> int
    decreases j,
{
    if j <= 0 {
        -1
    } else if s[j - 1] == '\n' {
        j - 1
    } else {
        last_newline(s, j - 1)
    }
}

/// The first position at or after `p` that holds whitespace (or the end).
pub open spec fn run_end(s: Seq<char>, p: nat) -> nat {
    scan_while(s, p, |c: char| !is_whitespace(c))
}

proof fn lemma_trim_end_at(s: Seq<char>, lo: int, hi: int)
    requires
        0 <= lo <= hi <= s.len(),
    ensures
        lo <= trim_end_at(s, lo, hi) <= hi,
    decreases hi - lo,
{
    if hi > lo && is_whitespace(s[hi - 1]) {
        lemma_trim_end_at(s, lo, hi - 1);
    }
}

proof fn lemma_last_newline(s: Seq<char>, j: int)
    requires
        j <= s.len(),
    ensures
        -1 <= last_newline(s, j) < j || (j <= 0 && last_newline(s, j) == -1),
        last_newline(s, j) >= 0 ==> s[last_newline(s, j)] == '\n',
    decreases j,
{
    if j > 0 && s[j - 1] != '\n' {
        lemma_last_newline(s, j - 1);
    }
}

/// Whether position `i` of `s` holds whitespace.
fn ws_at(s: &Vec<char>, i: usize) -> (r: bool)
    ensures
        r == (i < s@.len() && is_whitespace(s@[i as int])),
{
    if i < s.len() {
        char_is_whitespace(s[i])
    } else {
        false
    }
}

/// The characters of `s[from..to]`.
fn slice_chars(s: &Vec<char>, from: usize, to: usize) -> (t: Vec<char>)
    requires
        from <= to <= s@.len(),
    ensures
        t@ == s@.subrange(from as int, to as int),
{
    let mut t: Vec<char> = Vec::new();
    let mut i = from;
    while i < to
        invariant
            from <= i <= to <= s@.len(),
            t@ == s@.subrange(from as int, i as int),
        decreases to - i,
    {
        t.push(s[i]);
        i = i + 1;
        assert(t@ =~= s@.subrange(from as int, i as int));
    }
    t
}

/// `s` without the whitespace at either end.
fn trim_chars(s: &Vec<char>) -> (t: Vec<char>)
    ensures
        t@ == trimmed(s@),
{
    let n = s.len();
    let mut a: usize = 0;
    while ws_at(s, a)
        invariant
            n == s@.len(),
            a <= s@.len(),
            skip_ws(s@, a as nat) == skip_ws(s@, 0),
        decreases s@.len() - a,
    {
        a = a + 1;
    }
    proof {
        lemma_scan_while(s@, 0, |c: char| is_whitespace(c));
    }
    let mut b: usize = s.len();
    while b > a && ws_at(s, b - 1)
        invariant
            a <= b <= s@.len(),
            a == skip_ws(s@, 0),
            trim_end_at(s@, a as int, b as int) == trim_end_at(s@, a as int, s@.len() as int),
        decreases b,
    {
        b = b - 1;
    }
    slice_chars(s, a, b)
}

/// Whether `p` occurs in `s` starting at position `i`.
fn occurs_at_exec(s: &Vec<char>, i: usize, p: &[char]) -> (r: bool)
    ensures
        r == occurs_at(s@, i as int, p@),
{
    if i > s.len() || p.len() > s.len() - i {
        return false;
    }
    let n = s.len();
    let mut k: usize = 0;
    while k < p.len()
        invariant
            n == s@.len(),
            i + p@.len() <= s@.len(),
            k <= p@.len(),
            s@.subrange(i as int, i + k) == p@.subrange(0, k as int),
        decreases p@.len() - k,
    {
        assert(i + k < s@.len());
        if s[i + k] != p[k] {
            assert(s@.subrange(i as int, i + p@.len())[k as int] != p@[k as int]);
            return false;
        }
        k = k + 1;
        assert(s@.subrange(i as int, i + k) =~= p@.subrange(0, k as int));
    }
    assert(p@.subrange(0, p@.len() as int) =~= p@);
    true
}

/// Whether `p` occurs anywhere in `s`.
fn contains_exec(s: &Vec<char>, p: &[char]) -> (r: bool)
    ensures
        r == contains(s@, p@),
{
    if p.len() > s.len() {
        assert forall|j: int| !occurs_at(s@, j, p@) by {}
        return false;
    }
    let last = s.len() - p.len();
    let mut i: usize = 0;
    loop
        invariant
            last == s@.len() - p@.len(),
            i <= last,
            forall|j: int| 0 <= j < i ==> !#[trigger] occurs_at(s@, j, p@),
        decreases last - i,
    {
        if occurs_at_exec(s, i, p) {
            return true;
        }
        if i == last {
            assert forall|j: int| !occurs_at(s@, j, p@) by {
                if 0 <= j <= i {
                }
            }
            return false;
        }
        i = i + 1;
    }
}

/// Whether `s` ends with a colon.
fn ends_with_colon_exec(s: &Vec<char>) -> (r: bool)
    ensures
        r == ends_with_colon(s@),
{
    s.len() > 0 && s[s.len() - 1] == ':'
}

/// The position of the last newline in `s`, if there is one.
fn last_newline_exec(s: &Vec<char>) -> (k: Option<usize>)
    ensures
        match k {
            Some(k) => last_newline(s@, s@.len() as int) == k && k < s@.len(),
            None => last_newline(s@, s@.len() as int) == -1,
        },
{
    let mut j: usize = s.len();
    while j > 0
        invariant
            j <= s@.len(),
            last_newline(s@, j as int) == last_newline(s@, s@.len() as int),
        decreases j,
    {
        if s[j - 1] == '\n' {
            return Some(j - 1);
        }
        j = j - 1;
    }
    None
}

/// Whether a line opens a block that goes on over the following lines:
/// once trimmed, it ends with a colon and starts with one of the words that
/// introduce a block.
pub open spec fn starts_block(line: Seq<char>) -> bool {
    let t = trimmed(line);
    &&& ends_with_colon(t)
    &&& {
        ||| starts_with(t, seq!['i', 'f', ' '])
        ||| starts_with(t, seq!['t', 'h', 'e', 'n', ' '])
        ||| starts_with(t, seq!['e', 'l', 's', 'e', ':'])
        ||| starts_with(t, seq!['f', 'o', 'r', ' '])
        ||| starts_with(t, seq!['p', 'a', 'r', 'a', 'l', 'l', 'e', 'l', ' '])
        ||| starts_with(t, seq!['f', 'n', ' '])
        ||| starts_with(t, seq!['@', 'g', 'p', 'u', ' ', 'f', 'n', ' '])
        ||| starts_with(t, seq!['b', 'r', 'a', 'n', 'c', 'h', ' '])
        ||| starts_with(t, seq!['f', 'a', 'l', 'l', 'b', 'a', 'c', 'k'])
    }
}

/// Whether the lines gathered so far make a whole block.  With `b` the
/// gathered text trimmed: it defines a function and returns; or it holds
/// an `if`, `for` or `parallel` and does not end with a colon; or it has
/// more than one line (for trimmed text: it holds a newline) and its last
/// line, trimmed, is not empty and does not end with a colon.
pub open spec fn complete_block(buffer: Seq<char>) -> bool {
    let b = trimmed(buffer);
    let k = last_newline(b, b.len() as int);
    let last = trimmed(b.subrange(k + 1, b.len() as int));
    ||| contains(b, seq!['f', 'n', ' ']) && contains(b, seq!['r', 'e', 't', 'u', 'r', 'n'])
    ||| {
        &&& {
            ||| contains(b, seq!['i', 'f', ' '])
            ||| contains(b, seq!['f', 'o', 'r', ' '])
            ||| contains(b, seq!['p', 'a', 'r', 'a', 'l', 'l', 'e', 'l', ' '])
        }
        &&& !ends_with_colon(b)
    }
    ||| k >= 0 && last.len() > 0 && !ends_with_colon(last)
}

/// Whether the line starts with `c`.
fn line_starts_with(s: &Vec<char>, c: char) -> (r: bool)
    ensures
        r == starts_with(s@, seq![c]),
{
    if s.len() > 0 {
        if s[0] == c {
            assert(s@.subrange(0, 1) =~= seq![c]);
            true
        } else {
            assert(s@.subrange(0, 1)[0] != seq![c][0]);
            false
        }
    } else {
        false
    }
}

/// Whether a line opens a block that goes on over the following lines.
fn starts_block_exec(line: &Vec<char>) -> (r: bool)
    ensures
        r == starts_block(line@),
{
    let t = trim_chars(line);
    ends_with_colon_exec(&t) && (occurs_at_exec(&t, 0, &['i', 'f', ' '])
        || occurs_at_exec(&t, 0, &['t', 'h', 'e', 'n', ' '])
        || occurs_at_exec(&t, 0, &['e', 'l', 's', 'e', ':'])
        || occurs_at_exec(&t, 0, &['f', 'o', 'r', ' '])
        || occurs_at_exec(&t, 0, &['p', 'a', 'r', 'a', 'l', 'l', 'e', 'l', ' '])
        || occurs_at_exec(&t, 0, &['f', 'n', ' '])
        || occurs_at_exec(&t, 0, &['@', 'g', 'p', 'u', ' ', 'f', 'n', ' '])
        || occurs_at_exec(&t, 0, &['b', 'r', 'a', 'n', 'c', 'h', ' '])
        || occurs_at_exec(&t, 0, &['f', 'a', 'l', 'l', 'b', 'a', 'c', 'k']))
}

/// Whether the gathered text makes a whole block.
fn complete_block_exec(buffer: &Vec<char>) -> (r: bool)
    ensures
        r == complete_block(buffer@),
{
    let b = trim_chars(buffer);
    if contains_exec(&b, &['f', 'n', ' ']) && contains_exec(&b, &['r', 'e', 't', 'u', 'r', 'n']) {
        return true;
    }
    if (contains_exec(&b, &['i', 'f', ' ']) || contains_exec(&b, &['f', 'o', 'r', ' '])
        || contains_exec(&b, &['p', 'a', 'r', 'a', 'l', 'l', 'e', 'l', ' ']))
        && !ends_with_colon_exec(&b) {
        return true;
    }
    match last_newline_exec(&b) {
        Some(k) => {
            let last_raw = slice_chars(&b, k + 1, b.len());
            let last = trim_chars(&last_raw);
            last.len() > 0 && !ends_with_colon_exec(&last)
        },
        None => false,
    }
}

/// Appends the characters `cs`.
fn push_chars(s: &mut String, cs: &Vec<char>)
    ensures
        final(s)@ == old(s)@ + cs@,
{
    let mut i: usize = 0;
    while i < cs.len()
        invariant
            i <= cs@.len(),
            s@ == old(s)@ + cs@.subrange(0, i as int),
        decreases cs@.len() - i,
    {
        push_char(s, cs[i]);
        i = i + 1;
        assert(s@ =~= old(s)@ + cs@.subrange(0, i as int));
    }
    assert(cs@.subrange(0, cs@.len() as int) =~= cs@);
}

/// The text made of the characters `cs`.
fn string_of(cs: &Vec<char>) -> (s: String)
    ensures
        s@ == cs@,
{
    let mut s = String::new();
    push_chars(&mut s, cs);
    assert(Seq::<char>::empty() + cs@ =~= cs@);
    s
}

/// What the prompt keeps between lines: whether it is gathering a block,
/// the lines gathered so far (joined by newlines), and a bracket depth that
/// starts at zero with each block.
pub struct MultiLineInput {
    pub buffer: String,
    pub in_multi_line: bool,
    pub bracket_depth: i32,
}

/// The state of a `MultiLineInput`, with the gathered text as characters.
pub struct MultiLineV {
    pub in_multi_line: bool,
    pub buffer: Seq<char>,
    pub bracket_depth: int,
}

impl View for MultiLineInput {
    type V = MultiLineV;

    open spec fn view(&self) -> MultiLineV {
        MultiLineV {
            in_multi_line: self.in_multi_line,
            buffer: self.buffer@,
            bracket_depth: self.bracket_depth as int,
        }
    }
}

/// The state between blocks: nothing gathered.
pub open spec fn idle() -> MultiLineV {
    MultiLineV { in_multi_line: false, buffer: Seq::empty(), bracket_depth: 0 }
}

/// The gathered text with one more line: joined by a newline unless
/// nothing was gathered yet.
pub open spec fn joined(buffer: Seq<char>, line: Seq<char>) -> Seq<char> {
    if buffer.len() == 0 {
        line
    } else {
        buffer + seq!['\n'] + line
    }
}

/// The text of the code to run, if any.
pub open spec fn code_text(code: Option<String>) -> Option<Seq<char>> {
    match code {
        Some(c) => Some(c@),
        None => None,
    }
}

/// A line taken into a block: a block begins afresh if none was being
/// gathered; the line is added; and when the line may end the block (it is
/// blank, or starts with neither a space nor a tab at depth zero or less)
/// and the text is a whole block, that text is the code to run and the
/// state goes back to idle.  Otherwise the block goes on.
pub open spec fn block_line_step(st: MultiLineV, line: Seq<char>) -> (MultiLineV, Option<Seq<char>>) {
    let start = if st.in_multi_line {
        st
    } else {
        idle()
    };
    let buffer = joined(start.buffer, line);
    let may_end = trimmed(line).len() == 0 || (!starts_with(line, seq![' ']) && !starts_with(
        line,
        seq!['\t'],
    ) && start.bracket_depth <= 0);
    if may_end && complete_block(buffer) {
        (idle(), Some(buffer))
    } else {
        (MultiLineV { in_multi_line: true, buffer, bracket_depth: start.bracket_depth }, None)
    }
}

/// A line of code typed at the prompt, trimmed: it goes into a block if it
/// opens one or a block is being gathered; otherwise it is run at once.
pub open spec fn input_step(st: MultiLineV, input: Seq<char>) -> (MultiLineV, Option<Seq<char>>) {
    let line = trimmed(input);
    if starts_block(line) || st.in_multi_line {
        block_line_step(st, line)
    } else {
        (st, Some(line))
    }
}

impl MultiLineInput {
    pub fn new() -> (m: Self)
        ensures
            m@ == idle(),
    {
        MultiLineInput { buffer: String::new(), in_multi_line: false, bracket_depth: 0 }
    }

    /// Whether a line opens a block that goes on over the following lines.
    pub fn should_start_multi_line(&self, line: &str) -> (r: bool)
        ensures
            r == starts_block(line@),
    {
        let chars = chars_of(line);
        starts_block_exec(&chars)
    }

    /// Whether the lines gathered so far make a whole block.
    pub fn is_complete_block(&self) -> (r: bool)
        ensures
            r == complete_block(self.buffer@),
    {
        let chars = chars_of(self.buffer.as_str());
        complete_block_exec(&chars)
    }

    /// Drops the gathered lines and leaves block mode.
    pub fn reset_multi_line(&mut self)
        ensures
            final(self)@ == idle(),
    {
        self.in_multi_line = false;
        self.buffer = String::new();
        self.bracket_depth = 0;
    }

    /// Takes one line into a block; returns the block's text once it is
    /// whole.
    fn handle_multi_line_input(&mut self, line: &Vec<char>) -> (code: Option<String>)
        ensures
            (final(self)@, code_text(code)) == block_line_step(old(self)@, line@),
    {
        if !self.in_multi_line {
            self.in_multi_line = true;
            self.buffer = String::new();
            self.bracket_depth = 0;
        }
        let ghost start = self@;
        if !self.buffer.as_str().is_empty() {
            push_char(&mut self.buffer, '\n');
        }
        push_chars(&mut self.buffer, line);
        proof {
            if start.buffer.len() == 0 {
                assert(self.buffer@ =~= line@);
            } else {
                assert(self.buffer@ =~= start.buffer + seq!['\n'] + line@);
            }
        }
        let t = trim_chars(line);
        if t.len() == 0 || (!line_starts_with(line, ' ') && !line_starts_with(line, '\t')
            && self.bracket_depth <= 0) {
            if self.is_complete_block() {
                let code = self.buffer.clone();
                self.reset_multi_line();
                return Some(code);
            }
        }
        None
    }

    /// Takes a line of code typed at the prompt.  Returns the code to run
    /// now, if any: the line itself, trimmed, or a block that this line
    /// completes.
    pub fn handle_input(&mut self, input: &str) -> (code: Option<String>)
        ensures
            (final(self)@, code_text(code)) == input_step(old(self)@, input@),
    {
        let chars = chars_of(input);
        let line = trim_chars(&chars);
        if starts_block_exec(&line) || self.in_multi_line {
            self.handle_multi_line_input(&line)
        } else {
            Some(string_of(&line))
        }
    }

    /// An interrupt at the prompt: while a block is being gathered it is
    /// dropped and the prompt goes on (`true`); otherwise the prompt ends
    /// (`false`) and the state is left as it was.
    pub fn interrupt(&mut self) -> (keep_going: bool)
        ensures
            keep_going == old(self).in_multi_line,
            final(self)@ == (if old(self).in_multi_line {
                idle()
            } else {
                old(self)@
            }),
    {
        if self.in_multi_line {
            self.reset_multi_line();
            true
        } else {
            false
        }
    }
}

/// The first position at or after `from` that holds no whitespace (or the
/// end).
fn skip_ws_exec(s: &Vec<char>, from: usize) -> (r: usize)
    requires
        from <= s@.len(),
    ensures
        r == skip_ws(s@, from as nat),
        from <= r <= s@.len(),
{
    let n = s.len();
    let mut a = from;
    while ws_at(s, a)
        invariant
            n == s@.len(),
            from <= a <= s@.len(),
            skip_ws(s@, a as nat) == skip_ws(s@, from as nat),
        decreases s@.len() - a,
    {
        a = a + 1;
    }
    a
}

/// The first position at or after `from` that holds whitespace (or the
/// end).
fn run_end_exec(s: &Vec<char>, from: usize) -> (r: usize)
    requires
        from <= s@.len(),
    ensures
        r == run_end(s@, from as nat),
        from <= r <= s@.len(),
{
    let n = s.len();
    let mut a = from;
    while a < n && !ws_at(s, a)
        invariant
            n == s@.len(),
            from <= a <= s@.len(),
            run_end(s@, a as nat) == run_end(s@, from as nat),
        decreases s@.len() - a,
    {
        a = a + 1;
    }
    a
}

/// Whether `s[from..to]` is exactly `kw`.
fn span_is(s: &Vec<char>, from: usize, to: usize, kw: &[char]) -> (r: bool)
    requires
        from <= to <= s@.len(),
    ensures
        r == (s@.subrange(from as int, to as int) == kw@),
{
    if to - from != kw.len() {
        assert(s@.subrange(from as int, to as int).len() != kw@.len());
        return false;
    }
    occurs_at_exec(s, from, kw)
}

/// How a line typed at the prompt is taken.
#[derive(Debug, Clone, Copy, PartialEq, Eq, Structural)]
pub enum LineKind {
    /// Nothing but whitespace.
    Blank,
    /// Starts with `:` once trimmed.
    Command,
    /// Anything else: code.
    Code,
}

/// How a line is taken, by its trimmed text.
pub open spec fn line_kind_of(line: Seq<char>) -> LineKind {
    let t = trimmed(line);
    if t.len() == 0 {
        LineKind::Blank
    } else if t[0] == ':' {
        LineKind::Command
    } else {
        LineKind::Code
    }
}

/// How a line typed at the prompt is taken.
pub fn classify_line(line: &str) -> (k: LineKind)
    ensures
        k == line_kind_of(line@),
{
    let chars = chars_of(line);
    let t = trim_chars(&chars);
    if t.len() == 0 {
        LineKind::Blank
    } else if t[0] == ':' {
        LineKind::Command
    } else {
        LineKind::Code
    }
}

/// A `:` command at the prompt.
#[derive(Debug, Clone, PartialEq, Eq)]
pub enum ReplCommand {
    /// The line holds no word.
    Nothing,
    /// `:exit`, `:quit` or `:q`.
    Exit,
    /// `:help` or `:h`.
    Help,
    /// `:clear` or `:cls`.
    Clear,
    /// `:history`.
    History,
    /// `:load`, with the word after it if there is one.
    Load(Option<String>),
    /// `:env`.
    Env,
    /// `:reset`.
    Reset,
    /// Any other first word.
    Unknown(String),
}

/// A `:` command, with its words as characters.
pub enum ReplCommandV {
    Nothing,
    Exit,
    Help,
    Clear,
    History,
    Load(Option<Seq<char>>),
    Env,
    Reset,
    Unknown(Seq<char>),
}

impl View for ReplCommand {
    type V = ReplCommandV;

    open spec fn view(&self) -> ReplCommandV {
        match self {
            ReplCommand::Nothing => ReplCommandV::Nothing,
            ReplCommand::Exit => ReplCommandV::Exit,
            ReplCommand::Help => ReplCommandV::Help,
            ReplCommand::Clear => ReplCommandV::Clear,
            ReplCommand::History => ReplCommandV::History,
            ReplCommand::Load(arg) => ReplCommandV::Load(code_text(*arg)),
            ReplCommand::Env => ReplCommandV::Env,
            ReplCommand::Reset => ReplCommandV::Reset,
            ReplCommand::Unknown(w) => ReplCommandV::Unknown(w@),
        }
    }
}

/// The command that a line asks for, by its whitespace-separated words:
/// the first word names the command, and `:load` takes the second.
pub open spec fn command_of(line: Seq<char>) -> ReplCommandV {
    let a0 = skip_ws(line, 0);
    let e0 = run_end(line, a0);
    let w = line.subrange(a0 as int, e0 as int);
    let a1 = skip_ws(line, e0);
    if a0 >= line.len() {
        ReplCommandV::Nothing
    } else if w == seq![':', 'e', 'x', 'i', 't'] || w == seq![':', 'q', 'u', 'i', 't'] || w == seq![':', 'q'] {
        ReplCommandV::Exit
    } else if w == seq![':', 'h', 'e', 'l', 'p'] || w == seq![':', 'h'] {
        ReplCommandV::Help
    } else if w == seq![':', 'c', 'l', 'e', 'a', 'r'] || w == seq![':', 'c', 'l', 's'] {
        ReplCommandV::Clear
    } else if w == seq![':', 'h', 'i', 's', 't', 'o', 'r', 'y'] {
        ReplCommandV::History
    } else if w == seq![':', 'l', 'o', 'a', 'd'] {
        ReplCommandV::Load(
            if a1 < line.len() {
                Some(line.subrange(a1 as int, run_end(line, a1) as int))
            } else {
                None
            },
        )
    } else if w == seq![':', 'e', 'n', 'v'] {
        ReplCommandV::Env
    } else if w == seq![':', 'r', 'e', 's', 'e', 't'] {
        ReplCommandV::Reset
    } else {
        ReplCommandV::Unknown(w)
    }
}

/// Reads a `:` command from a line.
pub fn parse_command(line: &str) -> (cmd: ReplCommand)
    ensures
        cmd@ == command_of(line@),
{
    let s = chars_of(line);
    let a0 = skip_ws_exec(&s, 0);
    if a0 >= s.len() {
        return ReplCommand::Nothing;
    }
    let e0 = run_end_exec(&s, a0);
    if span_is(&s, a0, e0, &[':', 'e', 'x', 'i', 't']) || span_is(&s, a0, e0, &[':', 'q', 'u', 'i', 't'])
        || span_is(&s, a0, e0, &[':', 'q']) {
        ReplCommand::Exit
    } else if span_is(&s, a0, e0, &[':', 'h', 'e', 'l', 'p']) || span_is(&s, a0, e0, &[':', 'h']) {
        ReplCommand::Help
    } else if span_is(&s, a0, e0, &[':', 'c', 'l', 'e', 'a', 'r']) || span_is(&s, a0, e0, &[':', 'c', 'l', 's']) {
        ReplCommand::Clear
    } else if span_is(&s, a0, e0, &[':', 'h', 'i', 's', 't', 'o', 'r', 'y']) {
        ReplCommand::History
    } else if span_is(&s, a0, e0, &[':', 'l', 'o', 'a', 'd']) {
        let a1 = skip_ws_exec(&s, e0);
        if a1 < s.len() {
            let e1 = run_end_exec(&s, a1);
            let arg = slice_chars(&s, a1, e1);
            ReplCommand::Load(Some(string_of(&arg)))
        } else {
            ReplCommand::Load(None)
        }
    } else if span_is(&s, a0, e0, &[':', 'e', 'n', 'v']) {
        ReplCommand::Env
    } else if span_is(&s, a0, e0, &[':', 'r', 'e', 's', 'e', 't']) {
        ReplCommand::Reset
    } else {
        let w = slice_chars(&s, a0, e0);
        ReplCommand::Unknown(string_of(&w))
    }
}

/// Whenever a line yields code to run, the prompt is no longer gathering a
/// block afterwards.
pub proof fn lemma_code_ends_block(st: MultiLineV, input: Seq<char>)
    ensures
        input_step(st, input).1 is Some ==> !input_step(st, input).0.in_multi_line,
{
}

/// A line that opens a block starts gathering it, unless it is already a
/// whole block by itself.
pub proof fn lemma_opener_starts_block(st: MultiLineV, input: Seq<char>)
    requires
        !st.in_multi_line,
        starts_block(trimmed(input)),
        !complete_block(trimmed(input)),
    ensures
        input_step(st, input).0.in_multi_line,
        input_step(st, input).0.buffer == trimmed(input),
        input_step(st, input).1 is None,
{
}

} // verus!
