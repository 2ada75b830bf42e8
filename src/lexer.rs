use vstd::prelude::*;

verus! {

/// Why a text could not be turned into tokens.
#[derive(Copy, Clone, Debug, PartialEq, Eq, Structural)]
pub enum LexingError {
    /// A character that is neither a digit, `.`, an operator, a parenthesis nor a space.
    InvalidCharacter,
    /// A `.` that does not follow the whole digits of a number, or that
    /// follows a `.` of the same number.
    MismatchedDot,
}

impl LexingError {
    /// A human-readable description of the error.
    pub fn message(&self) -> (r: String)
        ensures
            *self == LexingError::InvalidCharacter ==> r@ == "Invalid character"@,
            *self == LexingError::MismatchedDot ==> r@ == "Mismatched '.' sign"@,
    {
        match self {
            LexingError::InvalidCharacter => "Invalid character".to_string(),
            LexingError::MismatchedDot => "Mismatched '.' sign".to_string(),
        }
    }
}

/// A number literal, held exactly as its decimal digits (each in `0..=9`):
/// its value is `whole.fraction`, negated when `negative` is set.
#[derive(Debug, PartialEq)]
pub struct Number {
    pub negative: bool,
    pub whole: Vec<u8>,
    pub fraction: Vec<u8>,
}

/// The mathematical content of a [`Number`].
pub struct NumberView {
    pub negative: bool,
    pub whole: Seq<u8>,
    pub fraction: Seq<u8>,
}

impl View for Number {
    type V = NumberView;

    open spec fn view(&self) -> NumberView {
        NumberView { negative: self.negative, whole: self.whole@, fraction: self.fraction@ }
    }
}

fn copy_digits(v: &Vec<u8>) -> (r: Vec<u8>)
    ensures
        r@ == v@,
{
    let mut r: Vec<u8> = Vec::new();
    let mut i: usize = 0;
    while i < v.len()
        invariant
            i <= v.len(),
            r@ == v@.take(i as int),
        decreases v.len() - i,
    {
        r.push(v[i]);
        i += 1;
        assert(r@ =~= v@.take(i as int));
    }
    assert(r@ =~= v@);
    r
}

impl Number {
    /// A copy of this number.
    pub fn copy(&self) -> (r: Number)
        ensures
            r@ == self@,
    {
        Number {
            negative: self.negative,
            whole: copy_digits(&self.whole),
            fraction: copy_digits(&self.fraction),
        }
    }

    /// The same digits with the opposite sign.
    pub fn negated(self) -> (r: Number)
        ensures
            r@ == (NumberView { negative: !self@.negative, ..self@ }),
    {
        Number { negative: !self.negative, whole: self.whole, fraction: self.fraction }
    }
}

/// A lexical unit of an expression.
#[derive(Debug, PartialEq)]
pub enum Token {
    Value(Number),
    Plus,
    Minus,
    Multiply,
    Slash,
    LeftPar,
    RightPar,
    Eof,
}

impl Token {
    /// A copy of this token.
    pub fn copy(&self) -> (r: Token)
        ensures
            r@ == self@,
    {
        match self {
            Token::Value(n) => Token::Value(n.copy()),
            Token::Plus => Token::Plus,
            Token::Minus => Token::Minus,
            Token::Multiply => Token::Multiply,
            Token::Slash => Token::Slash,
            Token::LeftPar => Token::LeftPar,
            Token::RightPar => Token::RightPar,
            Token::Eof => Token::Eof,
        }
    }
}

/// The mathematical content of a [`Token`].
pub enum TokenView {
    Value(NumberView),
    Plus,
    Minus,
    Multiply,
    Slash,
    LeftPar,
    RightPar,
    Eof,
}

impl View for Token {
    type V = TokenView;

    open spec fn view(&self) -> TokenView {
        match self {
            Token::Value(n) => TokenView::Value(n@),
            Token::Plus => TokenView::Plus,
            Token::Minus => TokenView::Minus,
            Token::Multiply => TokenView::Multiply,
            Token::Slash => TokenView::Slash,
            Token::LeftPar => TokenView::LeftPar,
            Token::RightPar => TokenView::RightPar,
            Token::Eof => TokenView::Eof,
        }
    }
}

/// The views of a sequence of tokens.
pub open spec fn tokens_view(v: Seq<Token>) -> Seq<TokenView> {
    v.map_values(|t: Token| t@)
}

/// What the lexer holds after reading part of a text: the tokens emitted so
/// far, the digits of the number being read before its `.`, and those after
/// it once a `.` has been read.
pub struct ScanState {
    pub tokens: Seq<TokenView>,
    pub whole: Option<Seq<u8>>,
    pub fraction: Option<Seq<u8>>,
}

pub open spec fn is_digit(c: char) -> bool {
    '0' <= c && c <= '9'
}

pub open spec fn digit_of(c: char) -> u8 {
    (c as u32 - '0' as u32) as u8
}

/// Characters that end a number being read.
pub open spec fn is_boundary(c: char) -> bool {
    c == '+' || c == '-' || c == '*' || c == '/' || c == '(' || c == ')' || c == ' '
}

/// The token that a boundary character other than a space stands for.
pub open spec fn boundary_token(c: char) -> TokenView {
    if c == '+' {
        TokenView::Plus
    } else if c == '-' {
        TokenView::Minus
    } else if c == '*' {
        TokenView::Multiply
    } else if c == '/' {
        TokenView::Slash
    } else if c == '(' {
        TokenView::LeftPar
    } else {
        TokenView::RightPar
    }
}

/// Emits the number being read, if any.
pub open spec fn flush(st: ScanState) -> ScanState {
    let tokens = match st.whole {
        Some(w) => st.tokens.push(
            TokenView::Value(
                NumberView {
                    negative: false,
                    whole: w,
                    fraction: match st.fraction {
                        Some(f) => f,
                        None => Seq::empty(),
                    },
                },
            ),
        ),
        None => st.tokens,
    };
    ScanState { tokens, whole: None, fraction: None }
}

/// What reading one more character does to the lexer's state.
pub open spec fn step(st: ScanState, c: char) -> Result<ScanState, LexingError> {
    if is_digit(c) {
        match st.fraction {
            Some(f) => Ok(ScanState { fraction: Some(f.push(digit_of(c))), ..st }),
            None => Ok(
                ScanState {
                    whole: Some(
                        match st.whole {
                            Some(w) => w,
                            None => Seq::empty(),
                        }.push(digit_of(c)),
                    ),
                    ..st
                },
            ),
        }
    } else if c == '.' {
        if st.whole is None || st.fraction is Some {
            Err(LexingError::MismatchedDot)
        } else {
            Ok(ScanState { fraction: Some(Seq::empty()), ..st })
        }
    } else if is_boundary(c) {
        let f = flush(st);
        if c == ' ' {
            Ok(f)
        } else {
            Ok(ScanState { tokens: f.tokens.push(boundary_token(c)), ..f })
        }
    } else {
        Err(LexingError::InvalidCharacter)
    }
}

pub open spec fn initial_state() -> ScanState {
    ScanState { tokens: Seq::empty(), whole: None, fraction: None }
}

/// The lexer's state after reading `s` from the start, or the first error met.
pub open spec fn run(s: Seq<char>) -> Result<ScanState, LexingError>
    decreases s.len(),
{
    if s.len() == 0 {
        Ok(initial_state())
    } else {
        match run(s.drop_last()) {
            Ok(st) => step(st, s.last()),
            Err(e) => Err(e),
        }
    }
}

/// The tokens of `s`: those read, the pending number, and one `Eof`.
pub open spec fn scan_spec(s: Seq<char>) -> Result<Seq<TokenView>, LexingError> {
    match run(s) {
        Ok(st) => Ok(flush(st).tokens.push(TokenView::Eof)),
        Err(e) => Err(e),
    }
}


/// No `Eof` among the tokens of a state reached by reading.
proof fn lemma_run_has_no_eof(s: Seq<char>)
    ensures
        run(s) is Ok ==> forall|k: int|
            0 <= k < run(s)->Ok_0.tokens.len() ==> run(s)->Ok_0.tokens[k] != TokenView::Eof,
    decreases s.len(),
{
    if s.len() > 0 {
        lemma_run_has_no_eof(s.drop_last());
        if let Ok(st) = run(s.drop_last()) {
            let c = s.last();
            let f = flush(st);
            assert(forall|k: int| 0 <= k < f.tokens.len() ==> f.tokens[k] != TokenView::Eof);
            if is_boundary(c) && c != ' ' {
                let t = f.tokens.push(boundary_token(c));
                assert(forall|k: int| 0 <= k < t.len() ==> t[k] != TokenView::Eof);
            }
        }
    }
}

/// Every token sequence that scanning produces ends with `Eof`, and holds no
/// other `Eof`.
pub proof fn lemma_scan_single_eof(s: Seq<char>)
    ensures
        scan_spec(s) is Ok ==> {
            let ts = scan_spec(s)->Ok_0;
            &&& ts.len() > 0
            &&& ts.last() == TokenView::Eof
            &&& forall|k: int| 0 <= k < ts.len() - 1 ==> ts[k] != TokenView::Eof
        },
{
    lemma_run_has_no_eof(s);
    if let Ok(st) = run(s) {
        let f = flush(st);
        assert(forall|k: int| 0 <= k < f.tokens.len() ==> f.tokens[k] != TokenView::Eof);
    }
}

/// The lexer's executable state seen as a [`ScanState`].
pub open spec fn state_of(tokens: Seq<Token>, whole: Option<Vec<u8>>, fraction: Option<Vec<u8>>) -> ScanState {
    ScanState {
        tokens: tokens_view(tokens),
        whole: match whole {
            Some(w) => Some(w@),
            None => None,
        },
        fraction: match fraction {
            Some(f) => Some(f@),
            None => None,
        },
    }
}

/// Once reading a prefix has failed, reading the whole text fails the same way.
proof fn lemma_run_error_persists(s: Seq<char>, i: int, e: LexingError)
    requires
        0 <= i <= s.len(),
        run(s.take(i)) == Err::<ScanState, LexingError>(e),
    ensures
        run(s) == Err::<ScanState, LexingError>(e),
    decreases s.len() - i,
{
    if i == s.len() {
        assert(s.take(i) =~= s);
    } else {
        assert(s.take(i + 1).drop_last() =~= s.take(i));
        lemma_run_error_persists(s, i + 1, e);
    }
}

/// The character at `i`: read as a byte, in constant time, when the whole
/// text is ASCII.
fn char_at(text: &str, i: usize, ascii: bool) -> (c: char)
    requires
        i < text@.len(),
        ascii == text.is_ascii(),
    ensures
        c == text@[i as int],
{
    if ascii {
        let b = text.get_ascii(i);
        assert('\0' <= text@[i as int] <= '\u{7f}');
        b as char
    } else {
        text.get_char(i)
    }
}

/// Turns a text into a sequence of tokens.
pub struct Lexer {
    input: String,
}

impl View for Lexer {
    type V = Seq<char>;

    closed spec fn view(&self) -> Seq<char> {
        self.input@
    }
}

fn flush_number(output: &mut Vec<Token>, whole: &mut Option<Vec<u8>>, fraction: &mut Option<Vec<u8>>)
    ensures
        state_of(final(output)@, *final(whole), *final(fraction)) == flush(
            state_of(old(output)@, *old(whole), *old(fraction)),
        ),
{
    let ghost st = state_of(output@, *whole, *fraction);
    let w = whole.take();
    let f = fraction.take();
    match w {
        Some(wd) => {
            let fd = match f {
                Some(fd) => fd,
                None => Vec::new(),
            };
            let number = Number { negative: false, whole: wd, fraction: fd };
            output.push(Token::Value(number));
            assert(tokens_view(output@) =~= flush(st).tokens);
        },
        None => {
            assert(tokens_view(output@) =~= flush(st).tokens);
        },
    }
}

impl Lexer {
    pub fn new(input: &str) -> (r: Lexer)
        ensures
            r@ == input@,
    {
        Lexer { input: input.to_string() }
    }

    /// The tokens of the text, ending with a single `Eof`, or the first
    /// error met reading it from the left.
    pub fn scan(&self) -> (r: Result<Vec<Token>, LexingError>)
        ensures
            match scan_spec(self@) {
                Ok(ts) => r is Ok && tokens_view(r->Ok_0@) == ts,
                Err(e) => r == Err::<Vec<Token>, LexingError>(e),
            },
            r is Ok ==> {
                let ts = tokens_view(r->Ok_0@);
                &&& ts.len() > 0
                &&& ts.last() == TokenView::Eof
                &&& forall|k: int| 0 <= k < ts.len() - 1 ==> ts[k] != TokenView::Eof
            },
    {
        proof {
            lemma_scan_single_eof(self@);
        }
        let text = self.input.as_str();
        let n = text.unicode_len();
        let ascii = text.is_ascii();
        let mut output: Vec<Token> = Vec::new();
        let mut whole: Option<Vec<u8>> = None;
        let mut fraction: Option<Vec<u8>> = None;
        let mut i: usize = 0;
        assert(self@.take(0) =~= Seq::<char>::empty());
        assert(tokens_view(output@) =~= Seq::<TokenView>::empty());
        while i < n
            invariant
                text@ == self@,
                ascii == text.is_ascii(),
                n == self@.len(),
                i <= n,
                run(self@.take(i as int)) == Ok::<ScanState, LexingError>(
                    state_of(output@, whole, fraction),
                ),
            decreases n - i,
        {
            let c = char_at(text, i, ascii);
            let ghost before = state_of(output@, whole, fraction);
            assert(self@.take(i + 1).drop_last() =~= self@.take(i as int));
            if '0' <= c && c <= '9' {
                let d: u8 = ((c as u32) - ('0' as u32)) as u8;
                match fraction.take() {
                    Some(mut f) => {
                        f.push(d);
                        fraction = Some(f);
                    },
                    None => {
                        let mut w = match whole.take() {
                            Some(w) => w,
                            None => Vec::new(),
                        };
                        w.push(d);
                        whole = Some(w);
                    },
                }
                assert(state_of(output@, whole, fraction) =~= step(before, c)->Ok_0);
            } else if c == '.' {
                if whole.is_none() || fraction.is_some() {
                    proof {
                        lemma_run_error_persists(self@, i + 1, LexingError::MismatchedDot);
                    }
                    return Err(LexingError::MismatchedDot);
                }
                fraction = Some(Vec::new());
                assert(state_of(output@, whole, fraction) =~= step(before, c)->Ok_0);
            } else if c == '+' || c == '-' || c == '*' || c == '/' || c == '(' || c == ')' || c == ' ' {
                flush_number(&mut output, &mut whole, &mut fraction);
                if c == '+' {
                    output.push(Token::Plus);
                } else if c == '-' {
                    output.push(Token::Minus);
                } else if c == '*' {
                    output.push(Token::Multiply);
                } else if c == '/' {
                    output.push(Token::Slash);
                } else if c == '(' {
                    output.push(Token::LeftPar);
                } else if c == ')' {
                    output.push(Token::RightPar);
                }
                assert(tokens_view(output@) =~= step(before, c)->Ok_0.tokens);
            } else {
                proof {
                    lemma_run_error_persists(self@, i + 1, LexingError::InvalidCharacter);
                }
                return Err(LexingError::InvalidCharacter);
            }
            i += 1;
        }
        assert(self@.take(n as int) =~= self@);
        flush_number(&mut output, &mut whole, &mut fraction);
        output.push(Token::Eof);
        assert(tokens_view(output@) =~= scan_spec(self@)->Ok_0);
        Ok(output)
    }
}

} // verus!
