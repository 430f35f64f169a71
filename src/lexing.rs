use crate::tables::{new_spelling_map, spelling_entries, spelling_get, spelling_insert};
use crate::text::{alphabetic, alphanumeric, byte_offset, char_indices, white_space};
use ahash::AHashMap;
use core::ops::Range;
use vstd::prelude::*;

verus! {

/// A place in the source text; both counts start at 1.
#[derive(Clone, Copy, Debug, PartialEq, Eq, Structural)]
pub struct Position {
    pub column: usize,
    pub line: usize,
}

/// One lexeme: its byte span, the symbol of a label, where it starts, and its kind.
#[derive(Debug, PartialEq, Eq)]
pub struct Token {
    pub span: Range<usize>,
    pub intern: Option<usize>,
    pub position: Position,
    pub kind: TokenKind,
}

#[derive(Clone, Copy, Debug, PartialEq, Eq, Structural)]
pub enum TokenKind {
    Backslash,
    FullStop,
    IllegalCharacter,
    Label,
    LeftParenthesis,
    RightParenthesis,
}

impl TokenKind {
    /// How the kind is named in messages.
    pub fn describe(&self) -> (r: &'static str)
        ensures
            r@ == self.description(),
    {
        match self {
            TokenKind::Backslash => "'\\'",
            TokenKind::FullStop => "'.'",
            TokenKind::IllegalCharacter => "illegal character",
            TokenKind::Label => "{label}",
            TokenKind::LeftParenthesis => "'('",
            TokenKind::RightParenthesis => "')'",
        }
    }

    pub open spec fn description(&self) -> Seq<char> {
        match self {
            TokenKind::Backslash => "'\\'"@,
            TokenKind::FullStop => "'.'"@,
            TokenKind::IllegalCharacter => "illegal character"@,
            TokenKind::Label => "{label}"@,
            TokenKind::LeftParenthesis => "'('"@,
            TokenKind::RightParenthesis => "')'"@,
        }
    }
}

/// The abstract state of a token stream: how far it has read, where that is,
/// and the symbols handed out so far.
pub ghost struct LexState {
    pub index: nat,
    pub position: Position,
    pub interns: Map<Seq<char>, usize>,
    pub symbols: nat,
}

/// The position after reading one character that is skipped.
pub open spec fn step_position(p: Position, c: char) -> Position {
    if c == '\n' {
        Position { column: 1, line: (p.line + 1) as usize }
    } else {
        Position { column: (p.column + 1) as usize, line: p.line }
    }
}

/// Index and position after the run of whitespace that starts at `i`.
pub open spec fn skip_space(chars: Seq<char>, i: nat, p: Position) -> (nat, Position)
    decreases chars.len() - i,
{
    if i < chars.len() && white_space(chars[i as int]) {
        skip_space(chars, i + 1, step_position(p, chars[i as int]))
    } else {
        (i, p)
    }
}

/// End of the run of alphanumeric characters that starts at `i`.
pub open spec fn label_end(chars: Seq<char>, i: nat) -> nat
    decreases chars.len() - i,
{
    if i < chars.len() && alphanumeric(chars[i as int]) {
        label_end(chars, i + 1)
    } else {
        i
    }
}

/// The kind of token that a character starts.
pub open spec fn kind_of(c: char) -> TokenKind {
    if c == '\\' {
        TokenKind::Backslash
    } else if c == '.' {
        TokenKind::FullStop
    } else if c == '(' {
        TokenKind::LeftParenthesis
    } else if c == ')' {
        TokenKind::RightParenthesis
    } else if alphabetic(c) {
        TokenKind::Label
    } else {
        TokenKind::IllegalCharacter
    }
}

/// The state a stream starts in.
pub open spec fn initial_state() -> LexState {
    LexState {
        index: 0,
        position: Position { column: 1, line: 1 },
        interns: Map::empty(),
        symbols: 0,
    }
}

/// The next token of `chars` read from state `st`, and the state after it.
#[verifier::opaque]
pub open spec fn next_token(chars: Seq<char>, st: LexState) -> (Option<Token>, LexState) {
    let (i, p) = skip_space(chars, st.index, st.position);
    if i >= chars.len() {
        (None, LexState { index: i, position: p, ..st })
    } else {
        let kind = kind_of(chars[i as int]);
        let end = if kind == TokenKind::Label {
            label_end(chars, i + 1)
        } else {
            i + 1
        };
        let spelling = chars.subrange(i as int, end as int);
        let known = st.interns.contains_key(spelling);
        let intern = if kind != TokenKind::Label {
            None
        } else if known {
            Some(st.interns[spelling])
        } else {
            Some(st.symbols as usize)
        };
        let interns = if kind == TokenKind::Label && !known {
            st.interns.insert(spelling, st.symbols as usize)
        } else {
            st.interns
        };
        let symbols = if kind == TokenKind::Label && !known {
            st.symbols + 1
        } else {
            st.symbols
        };
        let token = Token {
            span: Range {
                start: byte_offset(chars, i as int) as usize,
                end: byte_offset(chars, end as int) as usize,
            },
            intern,
            position: p,
            kind,
        };
        let after = LexState {
            index: end,
            position: Position { column: (p.column + (end - i)) as usize, line: p.line },
            interns,
            symbols,
        };
        (Some(token), after)
    }
}

/// A single forward pass over source text, with one token of lookahead.
pub struct TokenStream {
    characters: Vec<(usize, char)>,
    length: usize,
    interns: AHashMap<Vec<char>, usize>,
    symbols: usize,
    index: usize,
    position: Position,
}

impl View for TokenStream {
    type V = LexState;

    closed spec fn view(&self) -> LexState {
        LexState {
            index: self.index as nat,
            position: self.position,
            interns: spelling_entries(self.interns),
            symbols: self.symbols as nat,
        }
    }
}

proof fn lemma_skip_space(chars: Seq<char>, i: nat, p: Position)
    requires
        i <= chars.len(),
        p.column <= i + 1,
        p.line <= i + 1,
    ensures
        ({
            let (j, q) = skip_space(chars, i, p);
            i <= j <= chars.len() && q.column <= j + 1 && q.line <= j + 1
        }),
    decreases chars.len() - i,
{
    if i < chars.len() && white_space(chars[i as int]) {
        lemma_skip_space(chars, i + 1, step_position(p, chars[i as int]));
    }
}

proof fn lemma_label_end(chars: Seq<char>, i: nat)
    requires
        i <= chars.len(),
    ensures
        i <= label_end(chars, i) <= chars.len(),
    decreases chars.len() - i,
{
    if i < chars.len() && alphanumeric(chars[i as int]) {
        lemma_label_end(chars, i + 1);
    }
}

/// Reading a token never moves backwards, and reading one moves forwards.
pub proof fn lemma_next_token_advances(chars: Seq<char>, st: LexState)
    requires
        st.index <= chars.len(),
        st.position.column <= st.index + 1,
        st.position.line <= st.index + 1,
    ensures
        ({
            let (t, after) = next_token(chars, st);
            &&& st.index <= after.index <= chars.len()
            &&& t is Some ==> st.index < after.index
            &&& after.position.column <= after.index + 1
            &&& after.position.line <= after.index + 1
            &&& after.symbols <= st.symbols + (after.index - st.index)
            &&& t matches Some(token) ==> (token.intern is Some <==> token.kind == TokenKind::Label)
        }),
{
    reveal(next_token);
    lemma_skip_space(chars, st.index, st.position);
    let (i, p) = skip_space(chars, st.index, st.position);
    if i < chars.len() {
        lemma_label_end(chars, i + 1);
    }
}

impl TokenStream {
    /// The characters of the text that the stream reads.
    pub closed spec fn source(&self) -> Seq<char> {
        self.characters@.map_values(|p: (usize, char)| p.1)
    }

    pub closed spec fn inv(&self) -> bool {
        &&& self.characters@.len() < usize::MAX
        &&& forall|i: int|
            0 <= i < self.characters@.len() ==> #[trigger] self.characters@[i].0 == byte_offset(
                self.source(),
                i,
            )
        &&& self.length == byte_offset(self.source(), self.characters@.len() as int) as usize
        &&& self.index <= self.characters@.len()
        &&& self.position.column <= self.index + 1
        &&& self.position.line <= self.index + 1
        &&& self.symbols <= self.index
    }

    /// The bounds that every reachable state keeps.
    pub open spec fn bounded(&self) -> bool {
        &&& self@.index <= self.source().len()
        &&& self@.position.column <= self@.index + 1
        &&& self@.position.line <= self@.index + 1
        &&& self@.symbols <= self@.index
        &&& self.source().len() < usize::MAX
    }

    pub proof fn lemma_inv_bounded(&self)
        requires
            self.inv(),
        ensures
            self.bounded(),
    {
    }

    pub fn new(source: &str) -> (r: Self)
        ensures
            r.inv(),
            r.source() == source@,
            r@ == initial_state(),
    {
        let characters = char_indices(source);
        let length = source.len();
        let r = TokenStream {
            characters,
            length,
            interns: new_spelling_map(),
            symbols: 0,
            index: 0,
            position: Position { column: 1, line: 1 },
        };
        assert(r.source() =~= source@);
        assert(source@.take(source@.len() as int) =~= source@);
        assert(r@.interns =~= initial_state().interns);
        r
    }

    /// The byte offset at which the character at `i` starts, or the length
    /// of the text at its end.
    fn offset(&self, i: usize) -> (r: usize)
        requires
            self.inv(),
            i <= self.characters@.len(),
        ensures
            r == byte_offset(self.source(), i as int) as usize,
    {
        if i < self.characters.len() {
            self.characters[i].0
        } else {
            self.length
        }
    }

    /// Where the stream stands: past the last token read and, once the text
    /// is exhausted, past the trailing whitespace.
    pub fn position(&self) -> (r: Position)
        ensures
            r == self@.position,
    {
        self.position
    }

    /// Reads the next token without consuming it.
    pub fn peek(&self) -> (r: Option<Token>)
        requires
            self.inv(),
        ensures
            r == next_token(self.source(), self@).0,
    {
        let (r, _, _, _) = self.scan();
        r
    }

    /// Reads the next token and moves past it.
    pub fn next(&mut self) -> (r: Option<Token>)
        requires
            old(self).inv(),
        ensures
            final(self).inv(),
            final(self).source() == old(self).source(),
            (r, final(self)@) == next_token(old(self).source(), old(self)@),
            old(self)@.index <= final(self)@.index <= final(self).source().len(),
            r is Some ==> old(self)@.index < final(self)@.index,
            r matches Some(t) ==> (t.intern is Some <==> t.kind == TokenKind::Label),
    {
        let (r, index, position, fresh) = self.scan();
        proof {
            lemma_next_token_advances(self.source(), self@);
        }
        if let Some(spelling) = fresh {
            spelling_insert(&mut self.interns, spelling, self.symbols);
            self.symbols = self.symbols + 1;
        }
        self.index = index;
        self.position = position;
        proof {
            let after = next_token(old(self).source(), old(self)@).1;
            assert(self@.interns =~= after.interns);
        }
        r
    }

    /// Computes the next token, the index and position after it, and the
    /// spelling of a label that has no symbol yet.
    fn scan(&self) -> (r: (Option<Token>, usize, Position, Option<Vec<char>>))
        requires
            self.inv(),
        ensures
            ({
                let (t, after) = next_token(self.source(), self@);
                &&& r.0 == t
                &&& r.1 == after.index
                &&& r.2 == after.position
                &&& match r.3 {
                    Some(s) => after.interns == self@.interns.insert(s@, self.symbols)
                        && after.symbols == self@.symbols + 1,
                    None => after.interns == self@.interns && after.symbols == self@.symbols,
                }
            }),
    {
        reveal(next_token);
        let ghost chars = self.source();
        let n = self.characters.len();
        let mut i = self.index;
        let mut p = self.position;
        while i < n && self.characters[i].1.is_whitespace()
            invariant
                self.inv(),
                n == self.characters@.len(),
                chars == self.source(),
                self.index <= i <= n,
                p.column <= i + 1,
                p.line <= i + 1,
                skip_space(chars, i as nat, p) == skip_space(chars, self.index as nat, self.position),
            decreases n - i,
        {
            let c = self.characters[i].1;
            assert(c == chars[i as int]);
            if c == '\n' {
                p = Position { column: 1, line: p.line + 1 };
            } else {
                p = Position { column: p.column + 1, line: p.line };
            }
            i = i + 1;
        }
        proof {
            if i < n {
                assert(self.characters@[i as int].1 == chars[i as int]);
            }
        }
        if i >= n {
            return (None, i, p, None);
        }
        let c = self.characters[i].1;
        assert(c == chars[i as int]);
        let kind = if c == '\\' {
            TokenKind::Backslash
        } else if c == '.' {
            TokenKind::FullStop
        } else if c == '(' {
            TokenKind::LeftParenthesis
        } else if c == ')' {
            TokenKind::RightParenthesis
        } else if c.is_alphabetic() {
            TokenKind::Label
        } else {
            TokenKind::IllegalCharacter
        };
        let mut end = i + 1;
        if kind == TokenKind::Label {
            while end < n && self.characters[end].1.is_alphanumeric()
                invariant
                    self.inv(),
                    n == self.characters@.len(),
                    chars == self.source(),
                    i < end <= n,
                    label_end(chars, end as nat) == label_end(chars, (i + 1) as nat),
                decreases n - end,
            {
                assert(self.characters@[end as int].1 == chars[end as int]);
                end = end + 1;
            }
            proof {
                if end < n {
                    assert(self.characters@[end as int].1 == chars[end as int]);
                }
            }
        }
        let mut intern: Option<usize> = None;
        let mut fresh: Option<Vec<char>> = None;
        if kind == TokenKind::Label {
            let mut spelling: Vec<char> = Vec::new();
            let mut k = i;
            while k < end
                invariant
                    self.inv(),
                    n == self.characters@.len(),
                    chars == self.source(),
                    i <= k <= end <= n,
                    spelling@ == chars.subrange(i as int, k as int),
                decreases end - k,
            {
                spelling.push(self.characters[k].1);
                assert(spelling@ =~= chars.subrange(i as int, k + 1));
                k = k + 1;
            }
            match spelling_get(&self.interns, &spelling) {
                Some(s) => {
                    intern = Some(s);
                },
                None => {
                    intern = Some(self.symbols);
                    fresh = Some(spelling);
                },
            }
        }
        let start = self.offset(i);
        let stop = self.offset(end);
        let token = Token {
            span: Range { start, end: stop },
            intern,
            position: p,
            kind,
        };
        (Some(token), end, Position { column: p.column + (end - i), line: p.line }, fresh)
    }
}

} // verus!
