//! The SQL surface: a small tokenizer and a recursive-descent parser for
//! the command grammar.
//!
//! Tokens are barewords, quoted string literals (single or double quotes,
//! no escapes), and the punctuation `, ; = ( )`. The grammar accepted is:
//!
//! ```text
//! SELECT COUNT(*) FROM <ident>                               ";"?
//! SELECT <col> ("," <col>)* FROM <ident>                     ";"?
//! SELECT <col> ("," <col>)* FROM <ident> WHERE <col> = <lit> ";"?
//! ```
//!
//! with keywords matched without regard to ASCII case. The two dot
//! commands, `.dbinfo` and `.tables`, are matched byte for byte. Every
//! other command is `UnknownCommand`.

use vstd::prelude::*;

use crate::bytes::{bytes_eq, bytes_eq_ignore_case, spec_lower};
use crate::ddl::{is_ws, is_ws_byte, subvec};
use crate::error::Error;

verus! {

/// A token of the command grammar.
#[derive(Debug)]
pub enum Token {
    /// A bareword: any run of bytes free of whitespace, punctuation and
    /// quotes.
    Word(Vec<u8>),
    /// The body of a quoted string literal, quotes stripped.
    StrLit(Vec<u8>),
    /// `,`
    Comma,
    /// `;`
    Semi,
    /// `=`
    Eq,
    /// `(`
    LParen,
    /// `)`
    RParen,
}

/// The mathematical image of a token.
pub enum SpecToken {
    Word(Seq<u8>),
    StrLit(Seq<u8>),
    Comma,
    Semi,
    Eq,
    LParen,
    RParen,
}

impl View for Token {
    type V = SpecToken;

    open spec fn view(&self) -> SpecToken {
        match self {
            Token::Word(w) => SpecToken::Word(w@),
            Token::StrLit(s) => SpecToken::StrLit(s@),
            Token::Comma => SpecToken::Comma,
            Token::Semi => SpecToken::Semi,
            Token::Eq => SpecToken::Eq,
            Token::LParen => SpecToken::LParen,
            Token::RParen => SpecToken::RParen,
        }
    }
}

impl DeepView for Token {
    type V = SpecToken;

    open spec fn deep_view(&self) -> SpecToken {
        self.view()
    }
}

/// Whether `b` is a punctuation byte of the grammar.
pub open spec fn is_punct(b: u8) -> bool {
    b == 0x2c || b == 0x3b || b == 0x3d || b == 0x28 || b == 0x29
}

/// The token a punctuation byte stands for.
pub open spec fn punct_token(b: u8) -> SpecToken {
    if b == 0x2c {
        SpecToken::Comma
    } else if b == 0x3b {
        SpecToken::Semi
    } else if b == 0x3d {
        SpecToken::Eq
    } else if b == 0x28 {
        SpecToken::LParen
    } else {
        SpecToken::RParen
    }
}

/// Whether `b` opens or closes a string literal.
pub open spec fn is_str_quote(b: u8) -> bool {
    b == 0x27 || b == 0x22
}

/// The lexer's state between bytes: outside any token, inside a bareword,
/// or inside a string literal opened by a given quote byte.
pub enum LexSt {
    Plain,
    InWord(Seq<u8>),
    InStr(u8, Seq<u8>),
}

/// Prepend one token to a tokenization outcome.
pub open spec fn cons_token(t: SpecToken, rest: Option<Seq<SpecToken>>) -> Option<Seq<SpecToken>> {
    match rest {
        None => None,
        Some(r) => Some(seq![t] + r),
    }
}

/// The tokens of `s` from position `i` onward, starting in state `st`;
/// `None` when a string literal never closes.
pub open spec fn spec_tokenize(s: Seq<u8>, i: int, st: LexSt) -> Option<Seq<SpecToken>>
    decreases s.len() - i,
{
    if i < 0 || i > s.len() {
        None
    } else if i == s.len() {
        match st {
            LexSt::Plain => Some(Seq::empty()),
            LexSt::InWord(w) => Some(seq![SpecToken::Word(w)]),
            LexSt::InStr(q, acc) => None,
        }
    } else {
        let c = s[i];
        match st {
            LexSt::Plain => {
                if is_ws(c) {
                    spec_tokenize(s, i + 1, LexSt::Plain)
                } else if is_punct(c) {
                    cons_token(punct_token(c), spec_tokenize(s, i + 1, LexSt::Plain))
                } else if is_str_quote(c) {
                    spec_tokenize(s, i + 1, LexSt::InStr(c, Seq::empty()))
                } else {
                    spec_tokenize(s, i + 1, LexSt::InWord(seq![c]))
                }
            },
            LexSt::InWord(w) => {
                if is_ws(c) {
                    cons_token(SpecToken::Word(w), spec_tokenize(s, i + 1, LexSt::Plain))
                } else if is_punct(c) {
                    cons_token(
                        SpecToken::Word(w),
                        cons_token(punct_token(c), spec_tokenize(s, i + 1, LexSt::Plain)),
                    )
                } else if is_str_quote(c) {
                    cons_token(
                        SpecToken::Word(w),
                        spec_tokenize(s, i + 1, LexSt::InStr(c, Seq::empty())),
                    )
                } else {
                    spec_tokenize(s, i + 1, LexSt::InWord(w.push(c)))
                }
            },
            LexSt::InStr(q, acc) => {
                if c == q {
                    cons_token(SpecToken::StrLit(acc), spec_tokenize(s, i + 1, LexSt::Plain))
                } else {
                    spec_tokenize(s, i + 1, LexSt::InStr(q, acc.push(c)))
                }
            },
        }
    }
}

/// The tokens of a whole command string.
pub open spec fn spec_tokens(s: Seq<u8>) -> Option<Seq<SpecToken>> {
    spec_tokenize(s, 0, LexSt::Plain)
}

/// The lexer state the executable tokenizer is in, from its plain
/// variables: `mode` 0 outside tokens, 1 inside a bareword, 2 inside a
/// string literal.
pub open spec fn lex_st(mode: u8, quote: u8, buf: Seq<u8>) -> LexSt {
    if mode == 1 {
        LexSt::InWord(buf)
    } else if mode == 2 {
        LexSt::InStr(quote, buf)
    } else {
        LexSt::Plain
    }
}

/// Split a command string into tokens; `None` when a string literal never
/// closes.
pub fn tokenize(cmd: &Vec<u8>) -> (r: Option<Vec<Token>>)
    ensures
        match r {
            Some(v) => spec_tokens(cmd@) == Some(v.deep_view()),
            None => spec_tokens(cmd@) is None,
        },
{
    let mut out: Vec<Token> = Vec::new();
    let mut i: usize = 0;
    let mut mode: u8 = 0;
    let mut quote: u8 = 0;
    let mut buf: Vec<u8> = Vec::new();
    proof {
        if spec_tokens(cmd@) is Some {
            let all = spec_tokens(cmd@)->Some_0;
            assert(out.deep_view() + all =~~= all);
        }
    }
    while i < cmd.len()
        invariant
            0 <= i <= cmd.len(),
            mode == 0 || mode == 1 || mode == 2,
            spec_tokens(cmd@) == (match spec_tokenize(cmd@, i as int, lex_st(mode, quote, buf@)) {
                Some(rest) => Some(out.deep_view() + rest),
                None => None::<Seq<SpecToken>>,
            }),
        decreases cmd.len() - i,
    {
        let c = cmd[i];
        if mode == 2 {
            if c == quote {
                let ghost oldd = out.deep_view();
                let ghost bb = buf@;
                out.push(Token::StrLit(buf));
                buf = Vec::new();
                mode = 0;
                proof {
                    assert(out.deep_view() =~~= oldd.push(SpecToken::StrLit(bb)));
                    if spec_tokenize(cmd@, i + 1, LexSt::Plain) is Some {
                        let rest = spec_tokenize(cmd@, i + 1, LexSt::Plain)->Some_0;
                        assert(oldd + (seq![SpecToken::StrLit(bb)] + rest) =~~= oldd.push(
                            SpecToken::StrLit(bb),
                        ) + rest);
                    }
                    assert(buf@ =~= Seq::<u8>::empty());
                }
            } else {
                buf.push(c);
            }
        } else if mode == 1 {
            if is_ws_byte(c) {
                let ghost oldd = out.deep_view();
                let ghost ww = buf@;
                out.push(Token::Word(buf));
                buf = Vec::new();
                mode = 0;
                proof {
                    assert(out.deep_view() =~~= oldd.push(SpecToken::Word(ww)));
                    if spec_tokenize(cmd@, i + 1, LexSt::Plain) is Some {
                        let rest = spec_tokenize(cmd@, i + 1, LexSt::Plain)->Some_0;
                        assert(oldd + (seq![SpecToken::Word(ww)] + rest) =~~= oldd.push(
                            SpecToken::Word(ww),
                        ) + rest);
                    }
                    assert(buf@ =~= Seq::<u8>::empty());
                }
            } else if c == 0x2c || c == 0x3b || c == 0x3d || c == 0x28 || c == 0x29 {
                let ghost oldd = out.deep_view();
                let ghost ww = buf@;
                out.push(Token::Word(buf));
                buf = Vec::new();
                if c == 0x2c {
                    out.push(Token::Comma);
                } else if c == 0x3b {
                    out.push(Token::Semi);
                } else if c == 0x3d {
                    out.push(Token::Eq);
                } else if c == 0x28 {
                    out.push(Token::LParen);
                } else {
                    out.push(Token::RParen);
                }
                mode = 0;
                proof {
                    assert(out.deep_view() =~~= oldd.push(SpecToken::Word(ww)).push(
                        punct_token(c),
                    ));
                    if spec_tokenize(cmd@, i + 1, LexSt::Plain) is Some {
                        let rest = spec_tokenize(cmd@, i + 1, LexSt::Plain)->Some_0;
                        assert(oldd + (seq![SpecToken::Word(ww)] + (seq![punct_token(c)] + rest))
                            =~~= oldd.push(SpecToken::Word(ww)).push(punct_token(c)) + rest);
                    }
                    assert(buf@ =~= Seq::<u8>::empty());
                }
            } else if c == 0x27 || c == 0x22 {
                let ghost oldd = out.deep_view();
                let ghost ww = buf@;
                out.push(Token::Word(buf));
                buf = Vec::new();
                mode = 2;
                quote = c;
                proof {
                    assert(out.deep_view() =~~= oldd.push(SpecToken::Word(ww)));
                    if spec_tokenize(cmd@, i + 1, LexSt::InStr(c, Seq::empty())) is Some {
                        let rest = spec_tokenize(cmd@, i + 1, LexSt::InStr(c, Seq::empty()))
                            ->Some_0;
                        assert(oldd + (seq![SpecToken::Word(ww)] + rest) =~~= oldd.push(
                            SpecToken::Word(ww),
                        ) + rest);
                    }
                    assert(buf@ =~= Seq::<u8>::empty());
                }
            } else {
                buf.push(c);
            }
        } else {
            if is_ws_byte(c) {
                // stay outside tokens
            } else if c == 0x2c || c == 0x3b || c == 0x3d || c == 0x28 || c == 0x29 {
                let ghost oldd = out.deep_view();
                if c == 0x2c {
                    out.push(Token::Comma);
                } else if c == 0x3b {
                    out.push(Token::Semi);
                } else if c == 0x3d {
                    out.push(Token::Eq);
                } else if c == 0x28 {
                    out.push(Token::LParen);
                } else {
                    out.push(Token::RParen);
                }
                proof {
                    assert(out.deep_view() =~~= oldd.push(punct_token(c)));
                    if spec_tokenize(cmd@, i + 1, LexSt::Plain) is Some {
                        let rest = spec_tokenize(cmd@, i + 1, LexSt::Plain)->Some_0;
                        assert(oldd + (seq![punct_token(c)] + rest) =~~= oldd.push(punct_token(c))
                            + rest);
                    }
                }
            } else if c == 0x27 || c == 0x22 {
                mode = 2;
                quote = c;
                buf = Vec::new();
                proof {
                    assert(buf@ =~= Seq::<u8>::empty());
                }
            } else {
                mode = 1;
                buf = Vec::new();
                buf.push(c);
                proof {
                    assert(buf@ =~= seq![c]);
                }
            }
        }
        i = i + 1;
    }
    if mode == 2 {
        return None;
    }
    if mode == 1 {
        let ghost oldd = out.deep_view();
        let ghost ww = buf@;
        out.push(Token::Word(buf));
        proof {
            assert(out.deep_view() =~~= oldd.push(SpecToken::Word(ww)));
            assert(oldd + seq![SpecToken::Word(ww)] =~~= oldd.push(SpecToken::Word(ww)));
        }
        return Some(out);
    }
    proof {
        assert(out.deep_view() + Seq::<SpecToken>::empty() =~~= out.deep_view());
    }
    Some(out)
}

/// The lowercase keyword `select`.
pub open spec fn kw_select() -> Seq<u8> {
    seq![0x73u8, 0x65u8, 0x6cu8, 0x65u8, 0x63u8, 0x74u8]
}

/// The lowercase keyword `from`.
pub open spec fn kw_from() -> Seq<u8> {
    seq![0x66u8, 0x72u8, 0x6fu8, 0x6du8]
}

/// The lowercase keyword `where`.
pub open spec fn kw_where() -> Seq<u8> {
    seq![0x77u8, 0x68u8, 0x65u8, 0x72u8, 0x65u8]
}

/// The lowercase keyword `count`.
pub open spec fn kw_count() -> Seq<u8> {
    seq![0x63u8, 0x6fu8, 0x75u8, 0x6eu8, 0x74u8]
}

/// The dot command `.dbinfo`.
pub open spec fn kw_dbinfo() -> Seq<u8> {
    seq![0x2eu8, 0x64u8, 0x62u8, 0x69u8, 0x6eu8, 0x66u8, 0x6fu8]
}

/// The dot command `.tables`.
pub open spec fn kw_tables() -> Seq<u8> {
    seq![0x2eu8, 0x74u8, 0x61u8, 0x62u8, 0x6cu8, 0x65u8, 0x73u8]
}

/// Build the keyword `select`.
pub fn lit_select() -> (r: Vec<u8>)
    ensures
        r@ == kw_select(),
{
    let mut v: Vec<u8> = Vec::new();
    v.push(0x73);
    v.push(0x65);
    v.push(0x6c);
    v.push(0x65);
    v.push(0x63);
    v.push(0x74);
    proof {
        assert(v@ =~= kw_select());
    }
    v
}

/// Build the keyword `from`.
pub fn lit_from() -> (r: Vec<u8>)
    ensures
        r@ == kw_from(),
{
    let mut v: Vec<u8> = Vec::new();
    v.push(0x66);
    v.push(0x72);
    v.push(0x6f);
    v.push(0x6d);
    proof {
        assert(v@ =~= kw_from());
    }
    v
}

/// Build the keyword `where`.
pub fn lit_where() -> (r: Vec<u8>)
    ensures
        r@ == kw_where(),
{
    let mut v: Vec<u8> = Vec::new();
    v.push(0x77);
    v.push(0x68);
    v.push(0x65);
    v.push(0x72);
    v.push(0x65);
    proof {
        assert(v@ =~= kw_where());
    }
    v
}

/// Build the keyword `count`.
pub fn lit_count() -> (r: Vec<u8>)
    ensures
        r@ == kw_count(),
{
    let mut v: Vec<u8> = Vec::new();
    v.push(0x63);
    v.push(0x6f);
    v.push(0x75);
    v.push(0x6e);
    v.push(0x74);
    proof {
        assert(v@ =~= kw_count());
    }
    v
}

/// Build the dot command `.dbinfo`.
pub fn lit_dbinfo() -> (r: Vec<u8>)
    ensures
        r@ == kw_dbinfo(),
{
    let mut v: Vec<u8> = Vec::new();
    v.push(0x2e);
    v.push(0x64);
    v.push(0x62);
    v.push(0x69);
    v.push(0x6e);
    v.push(0x66);
    v.push(0x6f);
    proof {
        assert(v@ =~= kw_dbinfo());
    }
    v
}

/// Build the dot command `.tables`.
pub fn lit_tables() -> (r: Vec<u8>)
    ensures
        r@ == kw_tables(),
{
    let mut v: Vec<u8> = Vec::new();
    v.push(0x2e);
    v.push(0x74);
    v.push(0x61);
    v.push(0x62);
    v.push(0x6c);
    v.push(0x65);
    v.push(0x73);
    proof {
        assert(v@ =~= kw_tables());
    }
    v
}

/// A parsed command.
#[derive(Debug)]
pub enum Query {
    /// `.dbinfo`
    DbInfo,
    /// `.tables`
    Tables,
    /// `SELECT COUNT(*) FROM <table>`
    Count { table: Vec<u8> },
    /// `SELECT <cols> FROM <table> [WHERE <col> = <lit>]`
    Select { cols: Vec<Vec<u8>>, table: Vec<u8>, filter: Option<(Vec<u8>, Vec<u8>)> },
}

/// The mathematical image of a parsed command.
pub enum SpecQuery {
    DbInfo,
    Tables,
    Count { table: Seq<u8> },
    Select { cols: Seq<Seq<u8>>, table: Seq<u8>, filter: Option<(Seq<u8>, Seq<u8>)> },
}

impl View for Query {
    type V = SpecQuery;

    open spec fn view(&self) -> SpecQuery {
        match self {
            Query::DbInfo => SpecQuery::DbInfo,
            Query::Tables => SpecQuery::Tables,
            Query::Count { table } => SpecQuery::Count { table: table@ },
            Query::Select { cols, table, filter } => SpecQuery::Select {
                cols: cols.deep_view(),
                table: table@,
                filter: match filter {
                    None => None,
                    Some((c, v)) => Some((c@, v@)),
                },
            },
        }
    }
}

/// The column list starting at token `i`: one or more words separated by
/// commas. Yields the columns and the position of the first token after
/// them.
pub open spec fn spec_parse_cols(t: Seq<SpecToken>, i: int) -> Option<(Seq<Seq<u8>>, int)>
    decreases t.len() - i,
{
    if i < 0 || i >= t.len() || !(t[i] is Word) {
        None
    } else {
        let w = t[i]->Word_0;
        if i + 1 < t.len() && t[i + 1] is Comma {
            match spec_parse_cols(t, i + 2) {
                None => None,
                Some((cols, j)) => Some((seq![w] + cols, j)),
            }
        } else {
            Some((seq![w], i + 1))
        }
    }
}

/// What a literal token denotes: the text of a bareword or of a quoted
/// string.
pub open spec fn spec_parse_lit(t: SpecToken) -> Option<Seq<u8>> {
    match t {
        SpecToken::Word(w) => Some(w),
        SpecToken::StrLit(s) => Some(s),
        _ => None,
    }
}

/// Parse a token run against the SELECT grammar.
pub open spec fn spec_parse_query(t: Seq<SpecToken>) -> Option<SpecQuery> {
    if t.len() < 1 || !(t[0] is Word) || spec_lower(t[0]->Word_0) != kw_select() {
        None
    } else if t.len() >= 5 && t[1] is Word && spec_lower(t[1]->Word_0) == kw_count() && t[2]
        is LParen && t[3] is Word && t[3]->Word_0 == seq![0x2au8] && t[4] is RParen {
        if t.len() >= 7 && t[5] is Word && spec_lower(t[5]->Word_0) == kw_from() && t[6] is Word {
            if t.len() == 7 || (t.len() == 8 && t[7] is Semi) {
                Some(SpecQuery::Count { table: t[6]->Word_0 })
            } else {
                None
            }
        } else {
            None
        }
    } else {
        match spec_parse_cols(t, 1) {
            None => None,
            Some((cols, j)) => {
                if j + 1 < t.len() && t[j] is Word && spec_lower(t[j]->Word_0) == kw_from() && t[j
                    + 1] is Word {
                    let table = t[j + 1]->Word_0;
                    let k = j + 2;
                    if k == t.len() {
                        Some(SpecQuery::Select { cols, table, filter: None })
                    } else if k + 1 == t.len() && t[k] is Semi {
                        Some(SpecQuery::Select { cols, table, filter: None })
                    } else if k + 3 < t.len() && t[k] is Word && spec_lower(t[k]->Word_0)
                        == kw_where() && t[k + 1] is Word && t[k + 2] is Eq && spec_parse_lit(
                        t[k + 3],
                    ) is Some {
                        let wcol = t[k + 1]->Word_0;
                        let wval = spec_parse_lit(t[k + 3])->Some_0;
                        if k + 4 == t.len() || (k + 5 == t.len() && t[k + 4] is Semi) {
                            Some(SpecQuery::Select { cols, table, filter: Some((wcol, wval)) })
                        } else {
                            None
                        }
                    } else {
                        None
                    }
                } else {
                    None
                }
            },
        }
    }
}

/// What a whole command string means: a dot command matched byte for byte,
/// or a SELECT parsed from its tokens; everything else is
/// `UnknownCommand`.
pub open spec fn spec_parse_command(cmd: Seq<u8>) -> Result<SpecQuery, Error> {
    if cmd == kw_dbinfo() {
        Ok(SpecQuery::DbInfo)
    } else if cmd == kw_tables() {
        Ok(SpecQuery::Tables)
    } else {
        match spec_tokens(cmd) {
            None => Err(Error::UnknownCommand),
            Some(t) => match spec_parse_query(t) {
                None => Err(Error::UnknownCommand),
                Some(q) => Ok(q),
            },
        }
    }
}

/// Whether token `i` exists and is a bareword.
fn at_word(tokens: &Vec<Token>, i: usize) -> (r: bool)
    ensures
        r == (i < tokens.deep_view().len() && tokens.deep_view()[i as int] is Word),
{
    if i >= tokens.len() {
        return false;
    }
    proof {
        assert(tokens.deep_view()[i as int] == tokens@[i as int].deep_view());
    }
    match &tokens[i] {
        Token::Word(_) => true,
        _ => false,
    }
}

/// Whether token `i` exists and is the keyword `kw` up to ASCII case
/// (`kw` itself all lowercase).
fn at_kw(tokens: &Vec<Token>, i: usize, kw: &Vec<u8>) -> (r: bool)
    requires
        forall|k: int| 0 <= k < kw@.len() ==> !(0x41 <= #[trigger] kw@[k] <= 0x5a),
    ensures
        r == (i < tokens.deep_view().len() && tokens.deep_view()[i as int] is Word && spec_lower(
            tokens.deep_view()[i as int]->Word_0,
        ) == kw@),
{
    if i >= tokens.len() {
        return false;
    }
    proof {
        assert(tokens.deep_view()[i as int] == tokens@[i as int].deep_view());
        assert(spec_lower(kw@) =~= kw@);
    }
    match &tokens[i] {
        Token::Word(w) => bytes_eq_ignore_case(w, kw),
        _ => false,
    }
}

/// Copy the bareword at token `i`.
fn word_at(tokens: &Vec<Token>, i: usize) -> (r: Vec<u8>)
    requires
        i < tokens.deep_view().len(),
        tokens.deep_view()[i as int] is Word,
    ensures
        r@ == tokens.deep_view()[i as int]->Word_0,
{
    proof {
        assert(tokens.deep_view()[i as int] == tokens@[i as int].deep_view());
    }
    match &tokens[i] {
        Token::Word(w) => subvec(w, 0, w.len()),
        _ => {
            proof {
                assert(false);
            }
            Vec::new()
        },
    }
}

/// Whether token `i` exists and is the bareword `*`.
fn at_star(tokens: &Vec<Token>, i: usize) -> (r: bool)
    ensures
        r == (i < tokens.deep_view().len() && tokens.deep_view()[i as int] is Word
            && tokens.deep_view()[i as int]->Word_0 == seq![0x2au8]),
{
    if !at_word(tokens, i) {
        return false;
    }
    let w = word_at(tokens, i);
    let mut star: Vec<u8> = Vec::new();
    star.push(0x2a);
    proof {
        assert(star@ =~= seq![0x2au8]);
    }
    bytes_eq(&w, &star)
}

/// Which punctuation token stands at `i`, if any: 1 comma, 2 semicolon,
/// 3 equals, 4 opening parenthesis, 5 closing parenthesis, 0 others.
fn punct_kind_at(tokens: &Vec<Token>, i: usize) -> (r: u8)
    requires
        i < tokens.len(),
    ensures
        (r == 1) == (tokens.deep_view()[i as int] is Comma),
        (r == 2) == (tokens.deep_view()[i as int] is Semi),
        (r == 3) == (tokens.deep_view()[i as int] is Eq),
        (r == 4) == (tokens.deep_view()[i as int] is LParen),
        (r == 5) == (tokens.deep_view()[i as int] is RParen),
{
    proof {
        assert(tokens.deep_view()[i as int] == tokens@[i as int].deep_view());
    }
    match &tokens[i] {
        Token::Comma => 1,
        Token::Semi => 2,
        Token::Eq => 3,
        Token::LParen => 4,
        Token::RParen => 5,
        _ => 0,
    }
}

/// Copy the literal at token `i`: the text of a bareword or of a quoted
/// string.
fn lit_value_at(tokens: &Vec<Token>, i: usize) -> (r: Option<Vec<u8>>)
    requires
        i < tokens.len(),
    ensures
        match r {
            Some(v) => spec_parse_lit(tokens.deep_view()[i as int]) == Some(v@),
            None => spec_parse_lit(tokens.deep_view()[i as int]) is None,
        },
{
    proof {
        assert(tokens.deep_view()[i as int] == tokens@[i as int].deep_view());
    }
    match &tokens[i] {
        Token::Word(w) => Some(subvec(w, 0, w.len())),
        Token::StrLit(v) => Some(subvec(v, 0, v.len())),
        _ => None,
    }
}

/// Parse the column list starting at token `start`.
fn parse_cols(tokens: &Vec<Token>, start: usize) -> (r: Option<(Vec<Vec<u8>>, usize)>)
    ensures
        match r {
            Some((cols, j)) => spec_parse_cols(tokens.deep_view(), start as int) == Some(
                (cols.deep_view(), j as int),
            ) && j <= tokens.len(),
            None => spec_parse_cols(tokens.deep_view(), start as int) is None,
        },
{
    let ghost tv = tokens.deep_view();
    let mut cols: Vec<Vec<u8>> = Vec::new();
    let mut i: usize = start;
    proof {
        if spec_parse_cols(tv, start as int) is Some {
            let (cs, j) = spec_parse_cols(tv, start as int)->Some_0;
            assert(cols.deep_view() + cs =~~= cs);
        }
    }
    loop
        invariant
            tv == tokens.deep_view(),
            tv.len() == tokens.len(),
            start <= i,
            (match spec_parse_cols(tv, i as int) {
                Some((cs, j)) => spec_parse_cols(tv, start as int) == Some(
                    (cols.deep_view() + cs, j),
                ),
                None => spec_parse_cols(tv, start as int) is None,
            }),
        decreases tokens.len() + 2 - i,
    {
        if i >= tokens.len() {
            return None;
        }
        if !at_word(tokens, i) {
            return None;
        }
        let w = word_at(tokens, i);
        let ghost oldd = cols.deep_view();
        let ghost ww = w@;
        cols.push(w);
        proof {
            assert(cols.deep_view() =~~= oldd.push(ww));
        }
        let comma_next = if i + 1 < tokens.len() {
            punct_kind_at(tokens, i + 1) == 1
        } else {
            false
        };
        if comma_next {
            proof {
                if spec_parse_cols(tv, i + 2) is Some {
                    let (cs, j) = spec_parse_cols(tv, i + 2)->Some_0;
                    assert(oldd + (seq![ww] + cs) =~~= oldd.push(ww) + cs);
                }
            }
            i = i + 2;
        } else {
            proof {
                assert(spec_parse_cols(tv, i as int) == Some((seq![ww], i + 1)));
                assert(oldd + seq![ww] =~~= oldd.push(ww));
            }
            return Some((cols, i + 1));
        }
    }
}

/// Parse a token run against the SELECT grammar.
pub fn parse_query(tokens: &Vec<Token>) -> (r: Option<Query>)
    ensures
        match r {
            Some(q) => spec_parse_query(tokens.deep_view()) == Some(q@),
            None => spec_parse_query(tokens.deep_view()) is None,
        },
{
    let ghost tv = tokens.deep_view();
    let n = tokens.len();
    proof {
        assert(tv.len() == n);
    }
    let kw_sel = lit_select();
    if !at_kw(tokens, 0, &kw_sel) {
        return None;
    }
    let kw_cnt = lit_count();
    let kw_frm = lit_from();
    let is_count_head = n >= 5 && at_kw(tokens, 1, &kw_cnt) && punct_kind_at(tokens, 2) == 4
        && at_star(tokens, 3) && punct_kind_at(tokens, 4) == 5;
    if is_count_head {
        if n >= 7 && at_kw(tokens, 5, &kw_frm) && at_word(tokens, 6) {
            let table = word_at(tokens, 6);
            if n == 7 || (n == 8 && punct_kind_at(tokens, 7) == 2) {
                return Some(Query::Count { table });
            }
        }
        return None;
    }
    let (cols, j) = match parse_cols(tokens, 1) {
        Some(x) => x,
        None => {
            return None;
        },
    };
    if j >= n {
        return None;
    }
    if !(j + 1 < n && at_kw(tokens, j, &kw_frm) && at_word(tokens, j + 1)) {
        return None;
    }
    let table = word_at(tokens, j + 1);
    let k = j + 2;
    if k == n {
        return Some(Query::Select { cols, table, filter: None });
    }
    if k + 1 == n && punct_kind_at(tokens, k) == 2 {
        return Some(Query::Select { cols, table, filter: None });
    }
    let kw_whr = lit_where();
    let rem = n - k;
    if rem > 3 && at_kw(tokens, k, &kw_whr) && at_word(tokens, k + 1) && punct_kind_at(
        tokens,
        k + 2,
    ) == 3 {
        let wval = match lit_value_at(tokens, k + 3) {
            Some(v) => v,
            None => {
                return None;
            },
        };
        let wcol = word_at(tokens, k + 1);
        if rem == 4 || (rem == 5 && punct_kind_at(tokens, k + 4) == 2) {
            return Some(Query::Select { cols, table, filter: Some((wcol, wval)) });
        }
        return None;
    }
    None
}

/// Parse a whole command string: a dot command, a SELECT, or
/// `UnknownCommand`.
pub fn parse_command(cmd: &Vec<u8>) -> (r: Result<Query, Error>)
    ensures
        match r {
            Ok(q) => spec_parse_command(cmd@) == Ok::<SpecQuery, Error>(q@),
            Err(e) => spec_parse_command(cmd@) == Err::<SpecQuery, _>(e),
        },
{
    let dbinfo = lit_dbinfo();
    if bytes_eq(cmd, &dbinfo) {
        return Ok(Query::DbInfo);
    }
    let tables = lit_tables();
    if bytes_eq(cmd, &tables) {
        return Ok(Query::Tables);
    }
    let tokens = match tokenize(cmd) {
        Some(t) => t,
        None => {
            return Err(Error::UnknownCommand);
        },
    };
    match parse_query(&tokens) {
        Some(q) => Ok(q),
        None => Err(Error::UnknownCommand),
    }
}

/// The table a parsed SELECT speaks of.
pub open spec fn spec_parse_table_name(cmd: Seq<u8>) -> Result<Seq<u8>, Error> {
    match spec_parse_command(cmd) {
        Ok(SpecQuery::Count { table }) => Ok(table),
        Ok(SpecQuery::Select { cols, table, filter }) => Ok(table),
        _ => Err(Error::UnknownCommand),
    }
}

/// The table name of a SELECT command.
pub fn parse_table_name(query: &Vec<u8>) -> (r: Result<Vec<u8>, Error>)
    ensures
        match r {
            Ok(t) => spec_parse_table_name(query@) == Ok::<Seq<u8>, Error>(t@),
            Err(e) => spec_parse_table_name(query@) == Err::<Seq<u8>, _>(e),
        },
{
    match parse_command(query) {
        Ok(Query::Count { table }) => Ok(table),
        Ok(Query::Select { cols, table, filter }) => Ok(table),
        _ => Err(Error::UnknownCommand),
    }
}

/// The column list and table of a plain SELECT.
pub open spec fn spec_parse_select_columns(cmd: Seq<u8>) -> Result<(Seq<Seq<u8>>, Seq<u8>), Error> {
    match spec_parse_command(cmd) {
        Ok(SpecQuery::Select { cols, table, filter }) => Ok((cols, table)),
        _ => Err(Error::UnknownCommand),
    }
}

/// The column list and table of a SELECT command.
pub fn parse_select_columns_query(query: &Vec<u8>) -> (r: Result<(Vec<Vec<u8>>, Vec<u8>), Error>)
    ensures
        match r {
            Ok((cols, t)) => spec_parse_select_columns(query@) == Ok::<_, Error>(
                (cols.deep_view(), t@),
            ),
            Err(e) => spec_parse_select_columns(query@) == Err::<(Seq<Seq<u8>>, Seq<u8>), _>(e),
        },
{
    match parse_command(query) {
        Ok(Query::Select { cols, table, filter }) => Ok((cols, table)),
        _ => Err(Error::UnknownCommand),
    }
}

/// The column list, table, and WHERE pair of a filtered SELECT.
pub open spec fn spec_parse_select_where(cmd: Seq<u8>) -> Result<
    (Seq<Seq<u8>>, Seq<u8>, Seq<u8>, Seq<u8>),
    Error,
> {
    match spec_parse_command(cmd) {
        Ok(SpecQuery::Select { cols, table, filter: Some((wc, wv)) }) => Ok((cols, table, wc, wv)),
        _ => Err(Error::UnknownCommand),
    }
}

/// The column list, table, WHERE column and WHERE value of a filtered
/// SELECT command.
pub fn parse_select_columns_where_query(query: &Vec<u8>) -> (r: Result<
    (Vec<Vec<u8>>, Vec<u8>, Vec<u8>, Vec<u8>),
    Error,
>)
    ensures
        match r {
            Ok((cols, t, wc, wv)) => spec_parse_select_where(query@) == Ok::<_, Error>(
                (cols.deep_view(), t@, wc@, wv@),
            ),
            Err(e) => spec_parse_select_where(query@) == Err::<
                (Seq<Seq<u8>>, Seq<u8>, Seq<u8>, Seq<u8>),
                _,
            >(e),
        },
{
    match parse_command(query) {
        Ok(Query::Select { cols, table, filter: Some((wc, wv)) }) => Ok((cols, table, wc, wv)),
        _ => Err(Error::UnknownCommand),
    }
}

} // verus!
