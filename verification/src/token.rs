use vstd::prelude::*;

use crate::program::{FileLocation, LocV};

verus! {

/// A reserved keyword that structures control flow.
#[derive(Clone, Copy, Debug, PartialEq, Eq, Structural)]
pub enum Marker {
    If,
    IfStar,
    Else,
    While,
    Do,
    End,
}

/// The bytes a marker is spelled with in source text, as ASCII codes
/// (`if`, `if*`, `else`, `while`, `do`, `end`).
pub open spec fn marker_bytes(m: Marker) -> Seq<u8> {
    match m {
        Marker::If => seq![105u8, 102u8],
        Marker::IfStar => seq![105u8, 102u8, 42u8],
        Marker::Else => seq![101u8, 108u8, 115u8, 101u8],
        Marker::While => seq![119u8, 104u8, 105u8, 108u8, 101u8],
        Marker::Do => seq![100u8, 111u8],
        Marker::End => seq![101u8, 110u8, 100u8],
    }
}

/// The marker spelled by `text`, if any.
pub open spec fn marker_of(text: Seq<u8>) -> Option<Marker> {
    if text == marker_bytes(Marker::If) {
        Some(Marker::If)
    } else if text == marker_bytes(Marker::IfStar) {
        Some(Marker::IfStar)
    } else if text == marker_bytes(Marker::Else) {
        Some(Marker::Else)
    } else if text == marker_bytes(Marker::While) {
        Some(Marker::While)
    } else if text == marker_bytes(Marker::Do) {
        Some(Marker::Do)
    } else if text == marker_bytes(Marker::End) {
        Some(Marker::End)
    } else {
        None
    }
}

impl Marker {
    /// Classifies token text as a marker, by exact spelling.
    pub fn from_bytes(text: &Vec<u8>) -> (r: Option<Marker>)
        ensures
            r == marker_of(text@),
    {
        let n = text.len();
        if n == 2 && text[0] == 105u8 && text[1] == 102u8 {
            proof {
                assert(text@ =~= marker_bytes(Marker::If));
            }
            Some(Marker::If)
        } else if n == 3 && text[0] == 105u8 && text[1] == 102u8 && text[2] == 42u8 {
            proof {
                assert(text@ =~= marker_bytes(Marker::IfStar));
            }
            Some(Marker::IfStar)
        } else if n == 4 && text[0] == 101u8 && text[1] == 108u8 && text[2] == 115u8 && text[3]
            == 101u8 {
            proof {
                assert(text@ =~= marker_bytes(Marker::Else));
            }
            Some(Marker::Else)
        } else if n == 5 && text[0] == 119u8 && text[1] == 104u8 && text[2] == 105u8 && text[3] == 108u8
            && text[4] == 101u8 {
            proof {
                assert(text@ =~= marker_bytes(Marker::While));
            }
            Some(Marker::While)
        } else if n == 2 && text[0] == 100u8 && text[1] == 111u8 {
            proof {
                assert(text@ =~= marker_bytes(Marker::Do));
            }
            Some(Marker::Do)
        } else if n == 3 && text[0] == 101u8 && text[1] == 110u8 && text[2] == 100u8 {
            proof {
                assert(text@ =~= marker_bytes(Marker::End));
            }
            Some(Marker::End)
        } else {
            proof {
                assert(text@ != marker_bytes(Marker::If));
                assert(text@ != marker_bytes(Marker::IfStar));
                assert(text@ != marker_bytes(Marker::Else));
                assert(text@ != marker_bytes(Marker::While));
                assert(text@ != marker_bytes(Marker::Do));
                assert(text@ != marker_bytes(Marker::End));
            }
            None
        }
    }

    /// The spelling of a marker, for display.
    pub fn as_str(&self) -> (r: &'static str)
        ensures
            r@ == marker_chars(*self),
    {
        match self {
            Marker::If => "if",
            Marker::IfStar => "if*",
            Marker::Else => "else",
            Marker::While => "while",
            Marker::Do => "do",
            Marker::End => "end",
        }
    }
}

/// The characters a marker is spelled with, for display.
pub open spec fn marker_chars(m: Marker) -> Seq<char> {
    match m {
        Marker::If => "if"@,
        Marker::IfStar => "if*"@,
        Marker::Else => "else"@,
        Marker::While => "while"@,
        Marker::Do => "do"@,
        Marker::End => "end"@,
    }
}

/// Whitespace-delimited text that is neither a marker nor an integer.
#[derive(Debug)]
pub struct Word(Vec<u8>);

impl View for Word {
    type V = Seq<u8>;

    closed spec fn view(&self) -> Seq<u8> {
        self.0@
    }
}

impl Word {
    pub fn new(text: Vec<u8>) -> (r: Self)
        ensures
            r@ == text@,
    {
        Word(text)
    }

    /// The raw bytes of the word.
    pub fn as_bytes(&self) -> (r: &Vec<u8>)
        ensures
            r@ == self@,
    {
        &self.0
    }

    /// An owned copy of the word's bytes.
    pub fn to_vec(&self) -> (r: Vec<u8>)
        ensures
            r@ == self@,
    {
        let mut out: Vec<u8> = Vec::new();
        let n = self.0.len();
        let mut k: usize = 0;
        while k < n
            invariant
                k <= n,
                n == self.0@.len(),
                out@ == self.0@.subrange(0, k as int),
            decreases n - k,
        {
            out.push(self.0[k]);
            proof {
                assert(out@ =~= self.0@.subrange(0, k as int + 1));
            }
            k = k + 1;
        }
        proof {
            assert(out@ =~= self@);
        }
        out
    }
}

pub open spec fn is_digit(b: u8) -> bool {
    48u8 <= b <= 57u8
}

pub open spec fn digit_of(b: u8) -> nat {
    if is_digit(b) {
        (b - 48u8) as nat
    } else {
        0
    }
}

/// Value of a run of decimal digit bytes, most significant first.
pub open spec fn digits_val(s: Seq<u8>) -> nat
    decreases s.len(),
{
    if s.len() == 0 {
        0
    } else {
        digits_val(s.drop_last()) * 10 + digit_of(s.last())
    }
}

/// The digit run of integer text: an optional leading `+` is skipped.
pub open spec fn int_body(text: Seq<u8>) -> Seq<u8> {
    if text.len() > 0 && text[0] == 43u8 {
        text.drop_first()
    } else {
        text
    }
}

pub open spec fn all_digits(s: Seq<u8>) -> bool {
    forall|i: int| 0 <= i < s.len() ==> is_digit(#[trigger] s[i])
}

/// Whether `text` parses fully as an unsigned 64-bit integer: an optional
/// leading `+`, then at least one decimal digit, with a value within range.
pub open spec fn is_int_text(text: Seq<u8>) -> bool {
    let body = int_body(text);
    body.len() > 0 && all_digits(body) && digits_val(body) <= u64::MAX
}

pub open spec fn int_text_val(text: Seq<u8>) -> nat {
    digits_val(int_body(text))
}

/// A prefix of a digit run never exceeds the value of the whole run.
proof fn lemma_digits_val_prefix(s: Seq<u8>, j: int)
    requires
        0 <= j <= s.len(),
    ensures
        digits_val(s.take(j)) <= digits_val(s),
    decreases s.len() - j,
{
    if j == s.len() {
        assert(s.take(j) =~= s);
    } else {
        lemma_digits_val_prefix(s, j + 1);
        assert(s.take(j + 1).drop_last() =~= s.take(j));
        assert(digits_val(s.take(j + 1)) == digits_val(s.take(j)) * 10 + digit_of(s.take(j
            + 1).last()));
    }
}

/// Parses decimal integer text in the way `TokenType::from_bytes` requires:
/// `Some` exactly when the text is well-formed and its value fits in 64 bits.
pub fn parse_u64(text: &Vec<u8>) -> (r: Option<u64>)
    ensures
        r is Some <==> is_int_text(text@),
        r is Some ==> r->0 as nat == int_text_val(text@),
{
    let n = text.len();
    let start: usize = if n > 0 && text[0] == 43u8 {
        1
    } else {
        0
    };
    proof {
        assert(int_body(text@) =~= text@.skip(start as int));
    }
    if start >= n {
        assert(int_body(text@).len() == 0);
        return None;
    }
    let ghost body = text@.skip(start as int);
    let mut val: u64 = 0;
    let mut i: usize = start;
    while i < n
        invariant
            start <= i <= n,
            n == text@.len(),
            start < n,
            body == text@.skip(start as int),
            int_body(text@) == body,
            all_digits(body.take(i - start)),
            val as nat == digits_val(body.take(i - start)),
        decreases n - i,
    {
        let b = text[i];
        proof {
            assert(body[i - start] == text@[i as int]);
        }
        if b < 48u8 || b > 57u8 {
            proof {
                assert(!is_digit(body[i - start]));
            }
            return None;
        }
        let d = b - 48u8;
        if val > (u64::MAX - d as u64) / 10 {
            proof {
                assert(val as nat * 10 + d as nat > u64::MAX) by (nonlinear_arith)
                    requires
                        val as nat > ((u64::MAX - d as u64) / 10) as nat,
                        d as nat <= 9,
                        val <= u64::MAX,
                ;
                assert(body.take(i - start + 1).drop_last() =~= body.take(i - start));
                assert(digits_val(body.take(i - start + 1)) == val as nat * 10 + d as nat);
                lemma_digits_val_prefix(body, i - start + 1);
                assert(digits_val(body) > u64::MAX);
            }
            return None;
        }
        proof {
            assert(val as nat * 10 + d as nat <= u64::MAX) by (nonlinear_arith)
                requires
                    val as nat <= ((u64::MAX - d as u64) / 10) as nat,
                    d as nat <= 9,
            ;
            assert(body.take(i - start + 1).drop_last() =~= body.take(i - start));
        }
        val = val * 10 + d as u64;
        i = i + 1;
    }
    proof {
        assert(body.take(n - start) =~= body);
    }
    Some(val)
}

/// What raw token text classifies to: marker first, then integer, then word.
pub open spec fn classify(text: Seq<u8>) -> TokenTypeV {
    match marker_of(text) {
        Some(m) => TokenTypeV::Marker(m),
        None => if is_int_text(text) {
            TokenTypeV::Int(int_text_val(text) as u64)
        } else {
            TokenTypeV::Word(text)
        },
    }
}

/// Mathematical value of a [`TokenType`].
pub enum TokenTypeV {
    Word(Seq<u8>),
    Int(u64),
    Marker(Marker),
}

#[derive(Debug)]
pub enum TokenType {
    Word(Word),
    Int(u64),
    Marker(Marker),
}

impl View for TokenType {
    type V = TokenTypeV;

    open spec fn view(&self) -> TokenTypeV {
        match self {
            TokenType::Word(w) => TokenTypeV::Word(w@),
            TokenType::Int(v) => TokenTypeV::Int(*v),
            TokenType::Marker(m) => TokenTypeV::Marker(*m),
        }
    }
}

impl TokenType {
    /// Classifies raw token text: markers and integers shadow words with the
    /// same spelling.
    pub fn from_bytes(text: Vec<u8>) -> (r: Self)
        ensures
            r@ == classify(text@),
    {
        match Marker::from_bytes(&text) {
            Some(m) => TokenType::Marker(m),
            None => match parse_u64(&text) {
                Some(v) => TokenType::Int(v),
                None => TokenType::Word(Word::new(text)),
            },
        }
    }
}

/// A classified token with the location it was read at.
#[derive(Debug)]
pub struct Token {
    pub typ: TokenType,
    pub loc: FileLocation,
}

/// Mathematical value of a [`Token`].
pub struct TokenV {
    pub typ: TokenTypeV,
    pub loc: LocV,
}

impl View for Token {
    type V = TokenV;

    open spec fn view(&self) -> TokenV {
        TokenV { typ: self.typ@, loc: self.loc@ }
    }
}

} // verus!
