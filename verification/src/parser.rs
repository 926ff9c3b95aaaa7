//! The parser: from a raw line of text to a [`Command`].
//!
//! Lexical rules.  A token is one or more runs, concatenated with no
//! separating characters; a run is either bare (characters other than
//! whitespace, the two operator characters `|` and `>`, and the single
//! quote) or quoted (delimited by single quotes, content taken verbatim,
//! quotes stripped).  An unterminated quote is an error.  Grammatical rules.
//! A stage is one or more whitespace-separated tokens followed by an
//! optional redirection `> target`; stages are joined by `|`; the whole line
//! must be consumed.  A blank or whitespace-only line denotes
//! [`Command::Empty`]; one stage denotes [`Command::Simple`]; two or more
//! denote [`Command::Pipeline`].
//!
//! The grammar is stated as spec functions ([`spec_parse`] at the top), and
//! [`parse_line`] is proved to return exactly what they describe.

use vstd::prelude::*;

use crate::ast::{views_of_stages, Command, CommandView, Redirection, SimpleCommand, SimpleCommandView};

verus! {

/// Why a line was rejected.
#[derive(Debug, Clone, Copy, PartialEq, Eq, Structural)]
pub enum ParseError {
    /// A single quote was opened and never closed.
    UnterminatedQuote,
    /// A stage holds no token at all: a dangling `|` or a leading operator.
    EmptyStage,
    /// A stage was followed by text that no rule accounts for.
    TrailingInput,
    /// `>` was not followed by a token naming the target file.
    MissingRedirectionTarget,
}

// ---------------------------------------------------------------------------
// Character classes
// ---------------------------------------------------------------------------

/// Whitespace: token separators and ignorable padding.
pub open spec fn is_ws_char(c: char) -> bool {
    c == ' ' || c == '\t' || c == '\r' || c == '\n'
}

/// The two reserved operator characters.
pub open spec fn is_op_char(c: char) -> bool {
    c == '|' || c == '>'
}

/// A character that may begin or continue a token.
pub open spec fn is_word_char(c: char) -> bool {
    !is_ws_char(c) && !is_op_char(c)
}

/// A character that may stand in a bare (unquoted) run.
pub open spec fn is_bare_char(c: char) -> bool {
    is_word_char(c) && c != '\''
}

// ---------------------------------------------------------------------------
// The lexical level: character scans
// ---------------------------------------------------------------------------

/// The first position at or after `i` holding a single quote, if any.
pub open spec fn find_close(s: Seq<char>, i: int) -> Option<int>
    decreases s.len() - i,
{
    if i < 0 || i >= s.len() {
        Option::None
    } else if s[i] == '\'' {
        Option::Some(i)
    } else {
        find_close(s, i + 1)
    }
}

/// The first position at or after `i` holding a character that cannot stand
/// in a bare run, or the end of `s`.
pub open spec fn bare_end(s: Seq<char>, i: int) -> int
    decreases s.len() - i,
{
    if i < 0 || i >= s.len() {
        i
    } else if is_bare_char(s[i]) {
        bare_end(s, i + 1)
    } else {
        i
    }
}

pub proof fn lemma_find_close_bounds(s: Seq<char>, i: int)
    requires
        0 <= i <= s.len(),
    ensures
        match find_close(s, i) {
            Option::Some(q) => i <= q < s.len() && s[q] == '\'',
            Option::None => true,
        },
    decreases s.len() - i,
{
    if i < s.len() && s[i] != '\'' {
        lemma_find_close_bounds(s, i + 1);
    }
}

pub proof fn lemma_bare_end_bounds(s: Seq<char>, i: int)
    requires
        0 <= i <= s.len(),
    ensures
        i <= bare_end(s, i) <= s.len(),
        i < s.len() && is_bare_char(s[i]) ==> i + 1 <= bare_end(s, i),
    decreases s.len() - i,
{
    if i < s.len() && is_bare_char(s[i]) {
        lemma_bare_end_bounds(s, i + 1);
    }
}

/// The token starting at `i`: the concatenated contents of its runs, and
/// the position just after it.  At a position holding no word character the
/// token is empty and nothing is consumed.
pub open spec fn scan_token(s: Seq<char>, i: int) -> Result<(Seq<char>, int), ParseError>
    decreases s.len() - i,
{
    if i < 0 || i >= s.len() || !is_word_char(s[i]) {
        Result::Ok((Seq::empty(), i))
    } else if s[i] == '\'' {
        match find_close(s, i + 1) {
            Option::None => Result::Err(ParseError::UnterminatedQuote),
            Option::Some(q) => {
                proof {
                    lemma_find_close_bounds(s, i + 1);
                }
                match scan_token(s, q + 1) {
                    Result::Err(e) => Result::Err(e),
                    Result::Ok((rest, j)) => Result::Ok((s.subrange(i + 1, q) + rest, j)),
                }
            },
        }
    } else {
        let e: int = bare_end(s, i);
        proof {
            lemma_bare_end_bounds(s, i);
        }
        match scan_token(s, e) {
            Result::Err(er) => Result::Err(er),
            Result::Ok((rest, j)) => Result::Ok((s.subrange(i, e) + rest, j)),
        }
    }
}

pub proof fn lemma_scan_token_bounds(s: Seq<char>, i: int)
    requires
        0 <= i <= s.len(),
    ensures
        match scan_token(s, i) {
            Result::Ok((t, j)) => {
                &&& i <= j <= s.len()
                &&& (i < s.len() && is_word_char(s[i]) ==> i + 1 <= j)
            },
            Result::Err(e) => true,
        },
    decreases s.len() - i,
{
    if i < s.len() && is_word_char(s[i]) {
        if s[i] == '\'' {
            lemma_find_close_bounds(s, i + 1);
            if let Option::Some(q) = find_close(s, i + 1) {
                lemma_scan_token_bounds(s, q + 1);
            }
        } else {
            lemma_bare_end_bounds(s, i);
            lemma_scan_token_bounds(s, bare_end(s, i));
        }
    }
}

// ---------------------------------------------------------------------------
// The lexeme level
// ---------------------------------------------------------------------------

/// One lexeme of the line grammar.
pub ghost enum LexItem {
    /// A token, already assembled from its runs.
    Word(Seq<char>),
    /// The pipe operator `|`.
    Pipe,
    /// The redirection operator `>`.
    Gt,
}

/// The lexemes of `s` from position `i` on: tokens and operators in order,
/// whitespace discarded.
pub open spec fn lex_from(s: Seq<char>, i: int) -> Result<Seq<LexItem>, ParseError>
    decreases s.len() - i,
{
    if i < 0 || i >= s.len() {
        Result::Ok(Seq::empty())
    } else if is_ws_char(s[i]) {
        lex_from(s, i + 1)
    } else if s[i] == '|' {
        match lex_from(s, i + 1) {
            Result::Err(e) => Result::Err(e),
            Result::Ok(rest) => Result::Ok(seq![LexItem::Pipe] + rest),
        }
    } else if s[i] == '>' {
        match lex_from(s, i + 1) {
            Result::Err(e) => Result::Err(e),
            Result::Ok(rest) => Result::Ok(seq![LexItem::Gt] + rest),
        }
    } else {
        match scan_token(s, i) {
            Result::Err(e) => Result::Err(e),
            Result::Ok((t, k)) => {
                proof {
                    lemma_scan_token_bounds(s, i);
                }
                match lex_from(s, k) {
                    Result::Err(e) => Result::Err(e),
                    Result::Ok(rest) => Result::Ok(seq![LexItem::Word(t)] + rest),
                }
            },
        }
    }
}

// ---------------------------------------------------------------------------
// The grammatical level: stages over lexemes
// ---------------------------------------------------------------------------

/// The first position at or after `i` in `ls` holding something other than
/// a token, or the end of `ls`.
pub open spec fn word_run_end(ls: Seq<LexItem>, i: int) -> int
    decreases ls.len() - i,
{
    if i < 0 || i >= ls.len() {
        i
    } else if ls[i] is Word {
        word_run_end(ls, i + 1)
    } else {
        i
    }
}

pub proof fn lemma_word_run_end_bounds(ls: Seq<LexItem>, i: int)
    requires
        0 <= i <= ls.len(),
    ensures
        i <= word_run_end(ls, i) <= ls.len(),
    decreases ls.len() - i,
{
    if i < ls.len() && ls[i] is Word {
        lemma_word_run_end_bounds(ls, i + 1);
    }
}

/// The stage whose tokens are `ls[i .. j]`: the first token is the program,
/// the rest are the arguments.
pub open spec fn mk_stage(ls: Seq<LexItem>, i: int, j: int, redirection: Option<Seq<char>>)
    -> SimpleCommandView {
    SimpleCommandView {
        program: ls[i]->Word_0,
        args: Seq::new((j - i - 1) as nat, |t: int| ls[i + 1 + t]->Word_0),
        redirection,
    }
}

/// The stage starting at `i`: its tokens, then an optional redirection.
/// Yields the stage and the position just after it.
pub open spec fn parse_one_stage(ls: Seq<LexItem>, i: int)
    -> Result<(SimpleCommandView, int), ParseError> {
    let j: int = word_run_end(ls, i);
    if j <= i {
        Result::Err(ParseError::EmptyStage)
    } else if j < ls.len() && ls[j] is Gt {
        if j + 1 < ls.len() && ls[j + 1] is Word {
            Result::Ok((mk_stage(ls, i, j, Option::Some(ls[j + 1]->Word_0)), j + 2))
        } else {
            Result::Err(ParseError::MissingRedirectionTarget)
        }
    } else {
        Result::Ok((mk_stage(ls, i, j, Option::None), j))
    }
}

pub proof fn lemma_parse_one_stage_bounds(ls: Seq<LexItem>, i: int)
    requires
        0 <= i <= ls.len(),
    ensures
        match parse_one_stage(ls, i) {
            Result::Ok((cmd, k)) => i + 1 <= k <= ls.len(),
            Result::Err(e) => true,
        },
{
    lemma_word_run_end_bounds(ls, i);
}

/// The stages from position `i` on, joined by pipes, consuming everything:
/// after each stage either the lexemes end or a pipe introduces the next
/// stage; anything else is trailing input.
pub open spec fn parse_stages(ls: Seq<LexItem>, i: int)
    -> Result<Seq<SimpleCommandView>, ParseError>
    decreases ls.len() - i,
{
    if i < 0 || i >= ls.len() {
        Result::Err(ParseError::EmptyStage)
    } else {
        proof {
            lemma_parse_one_stage_bounds(ls, i);
        }
        match parse_one_stage(ls, i) {
            Result::Err(e) => Result::Err(e),
            Result::Ok((cmd, k)) => {
                if k >= ls.len() {
                    Result::Ok(seq![cmd])
                } else if ls[k] is Pipe {
                    match parse_stages(ls, k + 1) {
                        Result::Err(e) => Result::Err(e),
                        Result::Ok(rest) => Result::Ok(seq![cmd] + rest),
                    }
                } else {
                    Result::Err(ParseError::TrailingInput)
                }
            },
        }
    }
}

// ---------------------------------------------------------------------------
// The whole line
// ---------------------------------------------------------------------------

/// What a raw line denotes: the grammar of this library, stated once.
/// A line of no lexemes is blank and denotes [`CommandView::Empty`]; one
/// stage denotes [`CommandView::Simple`]; two or more denote
/// [`CommandView::Pipeline`].
pub open spec fn spec_parse(s: Seq<char>) -> Result<CommandView, ParseError> {
    match lex_from(s, 0) {
        Result::Err(e) => Result::Err(e),
        Result::Ok(ls) => {
            if ls.len() == 0 {
                Result::Ok(CommandView::Empty)
            } else {
                match parse_stages(ls, 0) {
                    Result::Err(e) => Result::Err(e),
                    Result::Ok(cmds) => {
                        if cmds.len() == 1 {
                            Result::Ok(CommandView::Simple(cmds[0]))
                        } else {
                            Result::Ok(CommandView::Pipeline(cmds))
                        }
                    },
                }
            }
        },
    }
}

proof fn lemma_parse_stages_nonempty(ls: Seq<LexItem>, i: int)
    ensures
        parse_stages(ls, i) matches Result::Ok(cmds) ==> cmds.len() >= 1,
    decreases ls.len() - i,
{
    if 0 <= i < ls.len() {
        lemma_parse_one_stage_bounds(ls, i);
        if let Result::Ok((cmd, k)) = parse_one_stage(ls, i) {
            if k < ls.len() && ls[k] is Pipe {
                lemma_parse_stages_nonempty(ls, k + 1);
            }
        }
    }
}

/// A parsed pipeline never has fewer than two stages: a line with a single
/// stage denotes a simple command instead.
pub proof fn lemma_pipeline_at_least_two(s: Seq<char>)
    ensures
        spec_parse(s) matches Result::Ok(c) ==> (c is Pipeline ==> c->Pipeline_0.len() >= 2),
{
    if let Result::Ok(ls) = lex_from(s, 0) {
        if ls.len() > 0 {
            lemma_parse_stages_nonempty(ls, 0);
        }
    }
}

// ---------------------------------------------------------------------------
// Executable character classes
// ---------------------------------------------------------------------------

fn ws_char(c: char) -> (r: bool)
    ensures
        r == is_ws_char(c),
{
    c == ' ' || c == '\t' || c == '\r' || c == '\n'
}

fn word_char(c: char) -> (r: bool)
    ensures
        r == is_word_char(c),
{
    !(c == ' ' || c == '\t' || c == '\r' || c == '\n' || c == '|' || c == '>')
}

fn bare_char(c: char) -> (r: bool)
    ensures
        r == is_bare_char(c),
{
    word_char(c) && c != '\''
}

// ---------------------------------------------------------------------------
// Executable lexemes
// ---------------------------------------------------------------------------

/// One lexeme, carried between the lexer and the stage parser.
enum Lexeme {
    Word(String),
    Pipe,
    Gt,
}

impl View for Lexeme {
    type V = LexItem;

    closed spec fn view(&self) -> LexItem {
        match self {
            Lexeme::Word(s) => LexItem::Word(s@),
            Lexeme::Pipe => LexItem::Pipe,
            Lexeme::Gt => LexItem::Gt,
        }
    }
}

/// The models of a sequence of lexemes, in order.
spec fn lex_views(toks: Seq<Lexeme>) -> Seq<LexItem> {
    toks.map_values(|l: Lexeme| l@)
}

fn is_word_lexeme(l: &Lexeme) -> (r: bool)
    ensures
        r == (l@ is Word),
{
    matches!(l, Lexeme::Word(_))
}

fn is_pipe_lexeme(l: &Lexeme) -> (r: bool)
    ensures
        r == (l@ is Pipe),
{
    matches!(l, Lexeme::Pipe)
}

fn is_gt_lexeme(l: &Lexeme) -> (r: bool)
    ensures
        r == (l@ is Gt),
{
    matches!(l, Lexeme::Gt)
}

/// The text of a lexeme known to be a token.
fn word_text(l: &Lexeme) -> (s: String)
    requires
        l@ is Word,
    ensures
        s@ == l@->Word_0,
{
    match l {
        Lexeme::Word(s) => s.clone(),
        _ => {
            proof {
                assert(false);
            }
            String::new()
        },
    }
}

// ---------------------------------------------------------------------------
// Prefix concatenation over partial parse results
// ---------------------------------------------------------------------------

/// `r` with `pre` prepended to the scanned text, errors unchanged.
spec fn tok_cat(pre: Seq<char>, r: Result<(Seq<char>, int), ParseError>)
    -> Result<(Seq<char>, int), ParseError> {
    match r {
        Result::Ok((t, j)) => Result::Ok((pre + t, j)),
        Result::Err(e) => Result::Err(e),
    }
}

/// `r` with `pre` prepended to the lexemes, errors unchanged.
spec fn lex_cat(pre: Seq<LexItem>, r: Result<Seq<LexItem>, ParseError>)
    -> Result<Seq<LexItem>, ParseError> {
    match r {
        Result::Ok(ls) => Result::Ok(pre + ls),
        Result::Err(e) => Result::Err(e),
    }
}

/// `r` with `pre` prepended to the stages, errors unchanged.
spec fn stages_cat(pre: Seq<SimpleCommandView>, r: Result<Seq<SimpleCommandView>, ParseError>)
    -> Result<Seq<SimpleCommandView>, ParseError> {
    match r {
        Result::Ok(cmds) => Result::Ok(pre + cmds),
        Result::Err(e) => Result::Err(e),
    }
}

proof fn lemma_tok_cat_assoc(a: Seq<char>, b: Seq<char>, r: Result<(Seq<char>, int), ParseError>)
    ensures
        tok_cat(a, tok_cat(b, r)) == tok_cat(a + b, r),
{
    if let Result::Ok((t, j)) = r {
        assert(a + (b + t) =~= (a + b) + t);
    }
}

proof fn lemma_lex_cat_assoc(a: Seq<LexItem>, b: Seq<LexItem>, r: Result<Seq<LexItem>, ParseError>)
    ensures
        lex_cat(a, lex_cat(b, r)) == lex_cat(a + b, r),
{
    if let Result::Ok(ls) = r {
        assert(a + (b + ls) =~= (a + b) + ls);
    }
}

proof fn lemma_stages_cat_assoc(
    a: Seq<SimpleCommandView>,
    b: Seq<SimpleCommandView>,
    r: Result<Seq<SimpleCommandView>, ParseError>,
)
    ensures
        stages_cat(a, stages_cat(b, r)) == stages_cat(a + b, r),
{
    if let Result::Ok(cmds) = r {
        assert(a + (b + cmds) =~= (a + b) + cmds);
    }
}

proof fn lemma_lex_views_push(toks: Seq<Lexeme>, l: Lexeme)
    ensures
        lex_views(toks.push(l)) == lex_views(toks) + seq![l@],
{
    assert(lex_views(toks.push(l)) =~= lex_views(toks) + seq![l@]);
}

// ---------------------------------------------------------------------------
// The executable scanner
// ---------------------------------------------------------------------------

/// Scan the token starting at `start`, which must hold a word character.
fn scan_token_exec(s: &str, start: usize) -> (r: Result<(String, usize), ParseError>)
    requires
        start < s@.len(),
        is_word_char(s@[start as int]),
    ensures
        match r {
            Result::Ok(p) => {
                &&& scan_token(s@, start as int) == Result::<(Seq<char>, int), ParseError>::Ok(
                    (p.0@, p.1 as int),
                )
                &&& start < p.1 <= s@.len()
            },
            Result::Err(e) => scan_token(s@, start as int) == Result::<
                (Seq<char>, int),
                ParseError,
            >::Err(e),
        },
{
    let n = s.unicode_len();
    let mut tok = String::new();
    let mut pos = start;
    while pos < n && word_char(s.get_char(pos))
        invariant
            start <= pos <= n,
            n == s@.len(),
            tok_cat(tok@, scan_token(s@, pos as int)) == scan_token(s@, start as int),
        decreases n - pos,
    {
        let ghost pre = tok@;
        if s.get_char(pos) == '\'' {
            // quoted run: find the closing quote
            let mut q = pos + 1;
            while q < n && s.get_char(q) != '\''
                invariant
                    pos + 1 <= q <= n,
                    n == s@.len(),
                    find_close(s@, pos as int + 1) == find_close(s@, q as int),
                decreases n - q,
            {
                q = q + 1;
            }
            if q == n {
                proof {
                    assert(find_close(s@, pos as int + 1) is None);
                    assert(scan_token(s@, pos as int) == Result::<
                        (Seq<char>, int),
                        ParseError,
                    >::Err(ParseError::UnterminatedQuote));
                }
                return Result::Err(ParseError::UnterminatedQuote);
            }
            proof {
                assert(find_close(s@, pos as int + 1) == Option::Some(q as int));
                assert(scan_token(s@, pos as int) == tok_cat(
                    s@.subrange(pos as int + 1, q as int),
                    scan_token(s@, q as int + 1),
                ));
                lemma_tok_cat_assoc(
                    pre,
                    s@.subrange(pos as int + 1, q as int),
                    scan_token(s@, q as int + 1),
                );
            }
            let run = s.substring_char(pos + 1, q);
            tok.append(run);
            pos = q + 1;
        } else {
            // bare run
            let mut e = pos;
            while e < n && bare_char(s.get_char(e))
                invariant
                    pos <= e <= n,
                    n == s@.len(),
                    bare_end(s@, pos as int) == bare_end(s@, e as int),
                decreases n - e,
            {
                e = e + 1;
            }
            proof {
                assert(bare_end(s@, pos as int) == e as int);
                lemma_bare_end_bounds(s@, pos as int);
                assert(scan_token(s@, pos as int) == tok_cat(
                    s@.subrange(pos as int, e as int),
                    scan_token(s@, e as int),
                ));
                lemma_tok_cat_assoc(
                    pre,
                    s@.subrange(pos as int, e as int),
                    scan_token(s@, e as int),
                );
            }
            let run = s.substring_char(pos, e);
            tok.append(run);
            pos = e;
        }
    }
    proof {
        assert(scan_token(s@, pos as int) == Result::<(Seq<char>, int), ParseError>::Ok(
            (Seq::empty(), pos as int),
        ));
        assert(tok@ + Seq::<char>::empty() =~= tok@);
        if pos == start {
            assert(false);
        }
    }
    Result::Ok((tok, pos))
}

// ---------------------------------------------------------------------------
// The executable lexer
// ---------------------------------------------------------------------------

/// Split the line into lexemes.
fn lex(s: &str) -> (r: Result<Vec<Lexeme>, ParseError>)
    ensures
        match r {
            Result::Ok(toks) => lex_from(s@, 0) == Result::<Seq<LexItem>, ParseError>::Ok(
                lex_views(toks@),
            ),
            Result::Err(e) => lex_from(s@, 0) == Result::<Seq<LexItem>, ParseError>::Err(e),
        },
{
    let n = s.unicode_len();
    let mut toks: Vec<Lexeme> = Vec::new();
    let mut i: usize = 0;
    while i < n
        invariant
            i <= n,
            n == s@.len(),
            lex_cat(lex_views(toks@), lex_from(s@, i as int)) == lex_from(s@, 0),
        decreases n - i,
    {
        let ghost pre = lex_views(toks@);
        let c = s.get_char(i);
        if ws_char(c) {
            proof {
                assert(lex_from(s@, i as int) == lex_from(s@, i as int + 1));
            }
            i = i + 1;
        } else if c == '|' {
            let ghost snap = toks@;
            toks.push(Lexeme::Pipe);
            proof {
                lemma_lex_views_push(snap, Lexeme::Pipe);
                assert(lex_from(s@, i as int) == lex_cat(
                    seq![LexItem::Pipe],
                    lex_from(s@, i as int + 1),
                ));
                lemma_lex_cat_assoc(pre, seq![LexItem::Pipe], lex_from(s@, i as int + 1));
            }
            i = i + 1;
        } else if c == '>' {
            let ghost snap = toks@;
            toks.push(Lexeme::Gt);
            proof {
                lemma_lex_views_push(snap, Lexeme::Gt);
                assert(lex_from(s@, i as int) == lex_cat(
                    seq![LexItem::Gt],
                    lex_from(s@, i as int + 1),
                ));
                lemma_lex_cat_assoc(pre, seq![LexItem::Gt], lex_from(s@, i as int + 1));
            }
            i = i + 1;
        } else {
            match scan_token_exec(s, i) {
                Result::Err(e) => {
                    proof {
                        assert(lex_from(s@, i as int) == Result::<Seq<LexItem>, ParseError>::Err(
                            e,
                        ));
                    }
                    return Result::Err(e);
                },
                Result::Ok((t, k)) => {
                    let ghost tv = t@;
                    toks.push(Lexeme::Word(t));
                    proof {
                        assert(lex_views(toks@) =~= pre + seq![LexItem::Word(tv)]);
                        assert(lex_from(s@, i as int) == lex_cat(
                            seq![LexItem::Word(tv)],
                            lex_from(s@, k as int),
                        ));
                        lemma_lex_cat_assoc(pre, seq![LexItem::Word(tv)], lex_from(s@, k as int));
                    }
                    i = k;
                },
            }
        }
    }
    proof {
        assert(lex_from(s@, i as int) == Result::<Seq<LexItem>, ParseError>::Ok(Seq::empty()));
        assert(lex_views(toks@) + Seq::<LexItem>::empty() =~= lex_views(toks@));
    }
    Result::Ok(toks)
}

// ---------------------------------------------------------------------------
// The executable stage parser
// ---------------------------------------------------------------------------

/// Group the lexemes into stages.
fn parse_stages_exec(toks: &Vec<Lexeme>) -> (r: Result<Vec<SimpleCommand>, ParseError>)
    requires
        lex_views(toks@).len() > 0,
    ensures
        match r {
            Result::Ok(cmds) => parse_stages(lex_views(toks@), 0) == Result::<
                Seq<SimpleCommandView>,
                ParseError,
            >::Ok(views_of_stages(cmds@)),
            Result::Err(e) => parse_stages(lex_views(toks@), 0) == Result::<
                Seq<SimpleCommandView>,
                ParseError,
            >::Err(e),
        },
{
    let ghost ls = lex_views(toks@);
    let n = toks.len();
    let mut cmds: Vec<SimpleCommand> = Vec::new();
    let mut i: usize = 0;
    loop
        invariant
            i <= n,
            n == toks@.len(),
            ls == lex_views(toks@),
            n == ls.len(),
            stages_cat(views_of_stages(cmds@), parse_stages(ls, i as int)) == parse_stages(ls, 0),
        decreases n - i,
    {
        let ghost stage_start = i as int;
        // the stage's tokens
        let mut words: Vec<String> = Vec::new();
        let mut j = i;
        while j < n && is_word_lexeme(&toks[j])
            invariant
                i <= j <= n,
                n == toks@.len(),
                ls == lex_views(toks@),
                n == ls.len(),
                word_run_end(ls, i as int) == word_run_end(ls, j as int),
                words@.len() == j - i,
                words.deep_view() =~= Seq::new((j - i) as nat, |t: int| ls[i + t]->Word_0),
            decreases n - j,
        {
            let w = word_text(&toks[j]);
            let ghost wv = w@;
            let ghost prevq = words@;
            let ghost prev = words.deep_view();
            proof {
                assert(ls[j as int] == toks@[j as int]@);
                assert(wv == ls[j as int]->Word_0);
            }
            words.push(w);
            j = j + 1;
            proof {
                assert forall|t: int| 0 <= t < j - i implies #[trigger] words.deep_view()[t]
                    == ls[i + t]->Word_0 by {
                    assert(words.deep_view()[t] == words@[t]@);
                    if t < j - i - 1 {
                        assert(words@[t] == prevq[t]);
                        assert(prev[t] == prevq[t]@);
                        assert(prev[t] == ls[i + t]->Word_0);
                    } else {
                        assert(words@[t]@ == wv);
                    }
                }
                assert(words.deep_view() =~= Seq::new((j - i) as nat, |t: int| ls[i + t]->Word_0));
            }
        }
        proof {
            assert(word_run_end(ls, j as int) == j as int);
        }
        if words.len() == 0 {
            proof {
                assert(parse_stages(ls, i as int) == Result::<
                    Seq<SimpleCommandView>,
                    ParseError,
                >::Err(ParseError::EmptyStage));
            }
            return Result::Err(ParseError::EmptyStage);
        }
        proof {
            lemma_word_run_end_bounds(ls, i as int);
        }
        // the stage's optional redirection
        proof {
            if (j as int) < ls.len() {
                assert(ls[j as int] == toks@[j as int]@);
            }
            if (j as int) + 1 < ls.len() {
                assert(ls[j as int + 1] == toks@[j as int + 1]@);
            }
        }
        let mut redirection: Option<Redirection> = Option::None;
        let mut k = j;
        if j < n && is_gt_lexeme(&toks[j]) {
            if j + 1 < n && is_word_lexeme(&toks[j + 1]) {
                let target = word_text(&toks[j + 1]);
                proof {
                    assert(target@ == ls[j as int + 1]->Word_0);
                }
                redirection = Option::Some(Redirection::Stdout(target));
                k = j + 2;
            } else {
                proof {
                    assert(parse_one_stage(ls, i as int) == Result::<
                        (SimpleCommandView, int),
                        ParseError,
                    >::Err(ParseError::MissingRedirectionTarget));
                    assert(parse_stages(ls, i as int) == Result::<
                        Seq<SimpleCommandView>,
                        ParseError,
                    >::Err(ParseError::MissingRedirectionTarget));
                }
                return Result::Err(ParseError::MissingRedirectionTarget);
            }
        }
        // build the stage
        let ghost wordsq = words@;
        let ghost wsv = words.deep_view();
        let ghost redirv: Option<Seq<char>> = match &redirection {
            Option::Some(r) => Option::Some(r@),
            Option::None => Option::None,
        };
        let mut rest = words;
        let program = rest.remove(0);
        let sc = SimpleCommand { program, args: rest, redirection };
        let ghost scv = sc@;
        proof {
            assert(rest@ =~= wordsq.subrange(1, wordsq.len() as int));
            assert(program@ == wsv[0]);
            assert(scv.program == ls[i as int]->Word_0);
            assert forall|t: int| 0 <= t < j - i - 1 implies #[trigger] sc.args.deep_view()[t]
                == ls[i as int + 1 + t]->Word_0 by {
                assert(sc.args.deep_view()[t] == sc.args@[t]@);
                assert(sc.args@[t] == wordsq[t + 1]);
                assert(wsv[t + 1] == wordsq[t + 1]@);
                assert(wsv[t + 1] == ls[i as int + (t + 1)]->Word_0);
            }
            assert(scv.args =~= Seq::new((j - i - 1) as nat, |t: int| ls[i as int + 1 + t]->Word_0));
            assert(scv.redirection == redirv);
            assert(scv =~= mk_stage(ls, i as int, j as int, redirv));
            assert(parse_one_stage(ls, i as int) == Result::<
                (SimpleCommandView, int),
                ParseError,
            >::Ok((scv, k as int)));
        }
        let ghost pre = views_of_stages(cmds@);
        cmds.push(sc);
        proof {
            assert(views_of_stages(cmds@) =~= pre + seq![scv]);
        }
        if k == n {
            proof {
                assert(parse_stages(ls, stage_start) == Result::<
                    Seq<SimpleCommandView>,
                    ParseError,
                >::Ok(seq![scv]));
                assert(pre + seq![scv] =~= views_of_stages(cmds@));
            }
            return Result::Ok(cmds);
        }
        if is_pipe_lexeme(&toks[k]) {
            proof {
                assert(parse_stages(ls, stage_start) == stages_cat(
                    seq![scv],
                    parse_stages(ls, k as int + 1),
                ));
                lemma_stages_cat_assoc(pre, seq![scv], parse_stages(ls, k as int + 1));
            }
            i = k + 1;
        } else {
            proof {
                assert(parse_stages(ls, stage_start) == Result::<
                    Seq<SimpleCommandView>,
                    ParseError,
                >::Err(ParseError::TrailingInput));
            }
            return Result::Err(ParseError::TrailingInput);
        }
    }
}

// ---------------------------------------------------------------------------
// The entry point
// ---------------------------------------------------------------------------

/// Parse one raw line into the command it denotes, exactly as
/// [`spec_parse`] describes.
pub fn parse_line(input: &str) -> (r: Result<Command, ParseError>)
    ensures
        match r {
            Result::Ok(c) => spec_parse(input@) == Result::<CommandView, ParseError>::Ok(c@),
            Result::Err(e) => spec_parse(input@) == Result::<CommandView, ParseError>::Err(e),
        },
{
    let toks = match lex(input) {
        Result::Ok(toks) => toks,
        Result::Err(e) => {
            return Result::Err(e);
        },
    };
    if toks.len() == 0 {
        proof {
            assert(lex_views(toks@) =~= Seq::<LexItem>::empty());
        }
        return Result::Ok(Command::Empty);
    }
    let mut cmds = match parse_stages_exec(&toks) {
        Result::Ok(cmds) => cmds,
        Result::Err(e) => {
            return Result::Err(e);
        },
    };
    if cmds.len() == 1 {
        let ghost cv = views_of_stages(cmds@);
        let sc = cmds.remove(0);
        proof {
            assert(cv[0] == sc@);
        }
        Result::Ok(Command::Simple(sc))
    } else {
        Result::Ok(Command::Pipeline(cmds))
    }
}

} // verus!
