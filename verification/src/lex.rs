use vstd::prelude::*;

use crate::program::{FileLocation, FilePosition, LocV};
use crate::token::{classify, Token, TokenType, TokenV};

verus! {

/// Whitespace as the lexer sees it: ASCII space and the control range
/// horizontal tab through carriage return.
pub open spec fn is_space(b: u8) -> bool {
    b == 32 || (9 <= b && b <= 13)
}

fn is_space_byte(b: u8) -> (r: bool)
    ensures
        r == is_space(b),
{
    b == 32 || (b >= 9 && b <= 13)
}

/// First index at or after `j` where the line ends or whitespace begins.
pub open spec fn token_end(line: Seq<u8>, j: int) -> int
    decreases line.len() - j,
{
    if j >= line.len() {
        line.len() as int
    } else if is_space(line[j]) {
        j
    } else {
        token_end(line, j + 1)
    }
}

pub proof fn lemma_token_end(line: Seq<u8>, j: int)
    requires
        0 <= j <= line.len(),
    ensures
        j <= token_end(line, j) <= line.len(),
        forall|k: int| j <= k < token_end(line, j) ==> !is_space(#[trigger] line[k]),
        token_end(line, j) < line.len() ==> is_space(line[token_end(line, j)]),
    decreases line.len() - j,
{
    if j < line.len() && !is_space(line[j]) {
        lemma_token_end(line, j + 1);
    }
}

/// `token_end` is the only index with its characterization: at or past `j`,
/// no whitespace before it, and the line's end or whitespace at it.
pub proof fn lemma_token_end_unique(line: Seq<u8>, j: int, e: int)
    requires
        0 <= j <= e <= line.len(),
        forall|k: int| j <= k < e ==> !is_space(#[trigger] line[k]),
        e == line.len() || is_space(line[e]),
    ensures
        e == token_end(line, j),
    decreases line.len() - j,
{
    if j < line.len() && !is_space(line[j]) {
        lemma_token_end_unique(line, j + 1, e);
    }
}

/// What lexing produces: the token stream and the location the lexer ends
/// at (the position just past everything it consumed, or no position at
/// all for an empty file).
pub struct LexOut {
    pub tokens: Seq<TokenV>,
    pub eof: LocV,
}

/// The location of line `li` (0-based), byte offset `off`: lines and
/// columns are 1-based.
pub open spec fn loc_at(path: Seq<char>, li: int, off: int) -> LocV {
    LocV {
        path,
        pos: Some(FilePosition { line: (li + 1) as usize, col: (off + 1) as usize }),
    }
}

/// Lexing from line `li`, offset `off` (the lexer has read line `li`
/// already). A remainder that starts with `//` discards the rest of the
/// line; whitespace is skipped; anything else starts a token that runs to
/// the next whitespace or line end and is classified on the spot.
///
/// Comments are recognised only when `//` opens the whole remaining
/// buffered line (after the tokens before it have been consumed and the
/// whitespace trimmed): `a //b` drops `//b`, while `a//b` is one token.
/// A known limitation of the grammar, kept deliberately.
pub open spec fn lex_at(path: Seq<char>, lines: Seq<Seq<u8>>, li: int, off: int) -> LexOut
    decreases lines.len() - li, lines[li].len() - off + 1,
        when 0 <= li < lines.len() && 0 <= off <= lines[li].len()
{
    let line = lines[li];
    if off < line.len() {
        if off + 1 < line.len() && line[off] == 47 && line[off + 1] == 47 {
            if li + 1 < lines.len() {
                lex_at(path, lines, li + 1, 0)
            } else {
                LexOut { tokens: Seq::empty(), eof: loc_at(path, li, off) }
            }
        } else if is_space(line[off]) {
            lex_at(path, lines, li, off + 1)
        } else {
            let end = token_end(line, off);
            let tok = TokenV { typ: classify(line.subrange(off, end)), loc: loc_at(path, li, off) };
            let rest = ({
                proof {
                    lemma_token_end(line, off);
                }
                lex_at(path, lines, li, end)
            });
            LexOut { tokens: seq![tok] + rest.tokens, eof: rest.eof }
        }
    } else {
        if li + 1 < lines.len() {
            lex_at(path, lines, li + 1, 0)
        } else {
            LexOut { tokens: Seq::empty(), eof: loc_at(path, li, off) }
        }
    }
}

/// The mathematical value of each line of source text.
pub open spec fn view_lines(s: Seq<Vec<u8>>) -> Seq<Seq<u8>> {
    s.map_values(|l: Vec<u8>| l@)
}

/// The mathematical value of each token.
pub open spec fn view_tokens(s: Seq<Token>) -> Seq<TokenV> {
    s.map_values(|t: Token| t@)
}

/// The token stream and final location of a whole source file, handed over
/// as its raw lines.
pub open spec fn tokenize_spec(path: Seq<char>, lines: Seq<Seq<u8>>) -> LexOut {
    if lines.len() == 0 {
        LexOut { tokens: Seq::empty(), eof: LocV { path, pos: None } }
    } else {
        lex_at(path, lines, 0, 0)
    }
}

/// Lexes a whole source file: reads the lines in order, stamps each token
/// with the 1-based line and column it starts at, and classifies it.
/// Returns the tokens and the location the lexer stopped at.
#[verifier::loop_isolation(false)]
pub fn tokenize(path: String, lines: &Vec<Vec<u8>>) -> (r: (Vec<Token>, FileLocation))
    requires
        forall|i: int| 0 <= i < lines@.len() ==> (#[trigger] lines@[i])@.len() < usize::MAX,
    ensures
        view_tokens(r.0@) == tokenize_spec(path@, view_lines(lines@)).tokens,
        r.1@ == tokenize_spec(path@, view_lines(lines@)).eof,
{
    let ghost lv = view_lines(lines@);
    let mut toks: Vec<Token> = Vec::new();
    proof {
        assert(view_tokens(toks@) =~= Seq::<TokenV>::empty());
    }
    if lines.len() == 0 {
        let eof = FileLocation { path, pos: None };
        proof {
            assert(view_tokens(toks@) =~= tokenize_spec(path@, lv).tokens);
        }
        return (toks, eof);
    }
    let mut li: usize = 0;
    let mut off: usize = 0;
    loop
        invariant
            lv == view_lines(lines@),
            lv.len() == lines@.len(),
            forall|i: int| 0 <= i < lines@.len() ==> lv[i] == (#[trigger] lines@[i])@,
            0 <= li < lines@.len(),
            0 <= off <= lv[li as int].len(),
            tokenize_spec(path@, lv).tokens == view_tokens(toks@) + lex_at(
                path@,
                lv,
                li as int,
                off as int,
            ).tokens,
            tokenize_spec(path@, lv).eof == lex_at(path@, lv, li as int, off as int).eof,
        decreases lv.len() - li, lv[li as int].len() - off,
    {
        let line: &Vec<u8> = &lines[li];
        let ghost linev = lv[li as int];
        if off < line.len() {
            let b = line[off];
            if off + 1 < line.len() && b == 47 && line[off + 1] == 47 {
                // A `//` remainder discards the rest of the line.
                if li + 1 < lines.len() {
                    li = li + 1;
                    off = 0;
                } else {
                    let eof = FileLocation {
                        path,
                        pos: Some(FilePosition { line: li + 1, col: off + 1 }),
                    };
                    return (toks, eof);
                }
            } else if is_space_byte(b) {
                off = off + 1;
            } else {
                proof {
                    lemma_token_end(linev, off as int);
                }
                let mut end: usize = off;
                while end < line.len() && !is_space_byte(line[end])
                    invariant
                        off <= end <= linev.len(),
                        forall|k: int| off <= k < end ==> !is_space(#[trigger] linev[k]),
                    decreases linev.len() - end,
                {
                    end = end + 1;
                }
                proof {
                    lemma_token_end_unique(linev, off as int, end as int);
                }
                let mut text: Vec<u8> = Vec::new();
                let mut k: usize = off;
                while k < end
                    invariant
                        off <= k <= end,
                        text@ == linev.subrange(off as int, k as int),
                    decreases end - k,
                {
                    text.push(line[k]);
                    proof {
                        assert(text@ =~= linev.subrange(off as int, k as int + 1));
                    }
                    k = k + 1;
                }
                let typ = TokenType::from_bytes(text);
                let loc = FileLocation {
                    path: path.clone(),
                    pos: Some(FilePosition { line: li + 1, col: off + 1 }),
                };
                let ghost before = toks@;
                toks.push(Token { typ, loc });
                proof {
                    let tokv = TokenV {
                        typ: classify(linev.subrange(off as int, end as int)),
                        loc: loc_at(path@, li as int, off as int),
                    };
                    assert(view_tokens(toks@) =~= view_tokens(before).push(tokv));
                    assert(view_tokens(before) + lex_at(path@, lv, li as int, off as int).tokens
                        =~= view_tokens(toks@) + lex_at(path@, lv, li as int, end as int).tokens);
                }
                off = end;
            }
        } else {
            if li + 1 < lines.len() {
                li = li + 1;
                off = 0;
            } else {
                let eof = FileLocation {
                    path,
                    pos: Some(FilePosition { line: li + 1, col: off + 1 }),
                };
                return (toks, eof);
            }
        }
    }
}

} // verus!
