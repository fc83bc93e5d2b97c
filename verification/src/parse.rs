use vstd::prelude::*;

use crate::error::{
    ErrV, Error, ErrorKindV, InfoKind, InfoV, MissingMarker, ParsingErrorV, UnexpectedMarker,
};
use crate::lex::LexOut;
use crate::op::{
    intrinsic_bytes, intrinsic_of, view_block, view_op, wf_op, wf_ops, wf_stars, IfV, Intrinsic, Op,
    OpBlock, OpTypeV, OpV, StarV, WhileV,
};
use crate::program::{FileLocation, LocV};
use crate::token::{Marker, Token, TokenTypeV, TokenV};

verus! {

// ------------------------------------------------------------------
// The errors the parser raises, as mathematical values.
// ------------------------------------------------------------------
/// An unknown word, located at the word itself.
pub open spec fn unknown_word_err(text: Seq<u8>, loc: LocV) -> ErrV {
    ErrV {
        kind: ErrorKindV::Parsing(ParsingErrorV::UnknownWord(text)),
        loc: Some(loc),
        infos: Seq::empty(),
    }
}

/// A block marker with no construct to attach to, located at the marker.
pub open spec fn free_floating_err(m: Marker, loc: LocV) -> ErrV {
    ErrV {
        kind: ErrorKindV::Parsing(
            ParsingErrorV::UnexpectedMarker(m, UnexpectedMarker::FreeFloating(m)),
        ),
        loc: Some(loc),
        infos: Seq::empty(),
    }
}

/// The token source ran out before a block's `end`: located at the end of
/// the source, with a note at the marker that opened the block.
pub open spec fn not_closed_err(block: Marker, eof: LocV, open_loc: LocV) -> ErrV {
    ErrV {
        kind: ErrorKindV::Parsing(
            ParsingErrorV::MissingMarker(Marker::End, MissingMarker::BlockNotClosed),
        ),
        loc: Some(eof),
        infos: seq![InfoV { kind: InfoKind::BlockStart(block), loc: open_loc }],
    }
}

/// A marker repeated inside the block named by `block`, with a note at the
/// block's opening marker.
pub open spec fn repeated_err(m: Marker, block: Marker, loc: LocV, open_loc: LocV) -> ErrV {
    ErrV {
        kind: ErrorKindV::Parsing(
            ParsingErrorV::UnexpectedMarker(m, UnexpectedMarker::Repeated(m, block)),
        ),
        loc: Some(loc),
        infos: seq![InfoV { kind: InfoKind::BlockStart(block), loc: open_loc }],
    }
}

/// `if*` anywhere but right after an `else` with a condition block.
pub open spec fn if_star_misplaced_err(loc: LocV, if_loc: LocV) -> ErrV {
    ErrV {
        kind: ErrorKindV::Parsing(
            ParsingErrorV::UnexpectedMarker(
                Marker::IfStar,
                UnexpectedMarker::General(Marker::IfStar, Marker::Else),
            ),
        ),
        loc: Some(loc),
        infos: seq![InfoV { kind: InfoKind::BlockStart(Marker::If), loc: if_loc }],
    }
}

/// A marker that has no meaning in the current block. `reported` is the
/// block marker named in the error itself, `note_block` the one the note
/// points at (inside a `while` the error names `if`, as a reader of the
/// diagnostics will observe).
pub open spec fn not_applicable_err(
    m: Marker,
    reported: Marker,
    note_block: Marker,
    loc: LocV,
    open_loc: LocV,
) -> ErrV {
    ErrV {
        kind: ErrorKindV::Parsing(
            ParsingErrorV::UnexpectedMarker(m, UnexpectedMarker::NotApplicable(m, reported)),
        ),
        loc: Some(loc),
        infos: seq![InfoV { kind: InfoKind::BlockStart(note_block), loc: open_loc }],
    }
}

/// `end` reached a `while` that never saw its `do`.
pub open spec fn missing_do_err(loc: LocV, while_loc: LocV) -> ErrV {
    ErrV {
        kind: ErrorKindV::Parsing(
            ParsingErrorV::MissingMarker(
                Marker::Do,
                MissingMarker::RequiredByBlock(Marker::Do, Marker::While),
            ),
        ),
        loc: Some(loc),
        infos: seq![InfoV { kind: InfoKind::BlockStart(Marker::While), loc: while_loc }],
    }
}

// ------------------------------------------------------------------
// The grammar, as recursive functions over the token stream.
// ------------------------------------------------------------------
/// The token at index `i`, classified for the parser: an integer, a word
/// resolved against the intrinsic table or left unknown, a marker, or the
/// end of the stream.
pub enum UnitV {
    UInt(u64, LocV),
    UIntrinsic(Intrinsic, LocV),
    UUnknownWord(Seq<u8>, LocV),
    UMarker(Marker, LocV),
    UEnd,
}

pub open spec fn unit_at(ts: Seq<TokenV>, i: int) -> UnitV {
    if i < 0 || i >= ts.len() {
        UnitV::UEnd
    } else {
        let tok = ts[i];
        match tok.typ {
            TokenTypeV::Int(v) => UnitV::UInt(v, tok.loc),
            TokenTypeV::Word(text) => match intrinsic_of(text) {
                Some(intr) => UnitV::UIntrinsic(intr, tok.loc),
                None => UnitV::UUnknownWord(text, tok.loc),
            },
            TokenTypeV::Marker(m) => UnitV::UMarker(m, tok.loc),
        }
    }
}

/// What parsing a whole block construct yields.
pub enum BlockParseV {
    /// The finished construct and the index right after its `end`.
    BOp(OpV, int),
    /// A parse fault.
    BErr(ErrV),
}

/// Where an `if` construct currently appends operations.
#[derive(Clone, Copy, Debug, PartialEq, Eq, Structural)]
pub enum IfParseState {
    InIf,
    InIfStar,
    InElse,
}

/// Where a `while` construct currently appends operations.
#[derive(Clone, Copy, Debug, PartialEq, Eq, Structural)]
pub enum WhileParseState {
    InCond,
    InDo,
}

/// Tokens remaining at index `i`, clamped at zero.
pub open spec fn remaining(len: int, i: int) -> nat {
    if i <= len {
        (len - i) as nat
    } else {
        0
    }
}

/// The next index after a nested construct: what the construct reports,
/// held to be past the construct's own opening token.
pub open spec fn adv(i: int, j: int) -> int {
    if j >= i + 1 {
        j
    } else {
        i + 1
    }
}

/// An `if` construct with nothing parsed into it yet.
pub open spec fn empty_if() -> IfV {
    IfV { if_block: Seq::empty(), if_star_blocks: Seq::empty(), else_block: None }
}

/// A `while` construct with nothing parsed into it yet.
pub open spec fn empty_while() -> WhileV {
    WhileV { cond_block: Seq::empty(), do_loc: None, do_block: Seq::empty() }
}

/// Appends an operation to the block an `if` currently builds.
pub open spec fn if_append(acc: IfV, state: IfParseState, op: OpV) -> IfV {
    match state {
        IfParseState::InIf => IfV { if_block: acc.if_block.push(op), ..acc },
        IfParseState::InIfStar => {
            let k = acc.if_star_blocks.len() - 1;
            let star = acc.if_star_blocks[k];
            IfV {
                if_star_blocks: acc.if_star_blocks.update(
                    k,
                    StarV { inner: star.inner.push(op), ..star },
                ),
                ..acc
            }
        },
        IfParseState::InElse => IfV { else_block: Some(acc.else_block->0.push(op)), ..acc },
    }
}

/// Appends an operation to the block a `while` currently builds.
pub open spec fn while_append(acc: WhileV, state: WhileParseState, op: OpV) -> WhileV {
    match state {
        WhileParseState::InCond => WhileV { cond_block: acc.cond_block.push(op), ..acc },
        WhileParseState::InDo => WhileV { do_block: acc.do_block.push(op), ..acc },
    }
}

/// Parses the inside of an `if` construct from index `i`, with the blocks
/// accumulated so far and the state that says where operations go.
pub open spec fn parse_if(
    ts: Seq<TokenV>,
    eof: LocV,
    i: int,
    if_loc: LocV,
    acc: IfV,
    state: IfParseState,
) -> BlockParseV
    decreases remaining(ts.len() as int, i), 1nat,
{
    match unit_at(ts, i) {
        UnitV::UEnd => BlockParseV::BErr(not_closed_err(Marker::If, eof, if_loc)),
        UnitV::UInt(v, loc) => parse_if(
            ts,
            eof,
            i + 1,
            if_loc,
            if_append(acc, state, OpV { typ: OpTypeV::PushInt(v), loc }),
            state,
        ),
        UnitV::UIntrinsic(intr, loc) => parse_if(
            ts,
            eof,
            i + 1,
            if_loc,
            if_append(acc, state, OpV { typ: OpTypeV::Intrinsic(intr), loc }),
            state,
        ),
        UnitV::UUnknownWord(text, loc) => BlockParseV::BErr(unknown_word_err(text, loc)),
        UnitV::UMarker(m, loc) => match m {
            Marker::If => match parse_if(ts, eof, i + 1, loc, empty_if(), IfParseState::InIf) {
                BlockParseV::BOp(op, j) => parse_if(
                    ts,
                    eof,
                    adv(i, j),
                    if_loc,
                    if_append(acc, state, op),
                    state,
                ),
                BlockParseV::BErr(e) => BlockParseV::BErr(e),
            },
            Marker::While => match parse_while(
                ts,
                eof,
                i + 1,
                loc,
                empty_while(),
                WhileParseState::InCond,
            ) {
                BlockParseV::BOp(op, j) => parse_if(
                    ts,
                    eof,
                    adv(i, j),
                    if_loc,
                    if_append(acc, state, op),
                    state,
                ),
                BlockParseV::BErr(e) => BlockParseV::BErr(e),
            },
            Marker::Else => match state {
                IfParseState::InElse => BlockParseV::BErr(
                    repeated_err(Marker::Else, Marker::If, loc, if_loc),
                ),
                _ => parse_if(
                    ts,
                    eof,
                    i + 1,
                    if_loc,
                    IfV { else_block: Some(Seq::empty()), ..acc },
                    IfParseState::InElse,
                ),
            },
            Marker::IfStar => match state {
                IfParseState::InElse => parse_if(
                    ts,
                    eof,
                    i + 1,
                    if_loc,
                    IfV {
                        if_star_blocks: acc.if_star_blocks.push(
                            StarV { loc, cond: acc.else_block->0, inner: Seq::empty() },
                        ),
                        else_block: None,
                        ..acc
                    },
                    IfParseState::InIfStar,
                ),
                _ => BlockParseV::BErr(if_star_misplaced_err(loc, if_loc)),
            },
            Marker::End => BlockParseV::BOp(OpV { typ: OpTypeV::If(acc), loc: if_loc }, i + 1),
            Marker::Do => BlockParseV::BErr(
                not_applicable_err(Marker::Do, Marker::If, Marker::If, loc, if_loc),
            ),
        },
    }
}

/// Parses the inside of a `while` construct from index `i`.
pub open spec fn parse_while(
    ts: Seq<TokenV>,
    eof: LocV,
    i: int,
    while_loc: LocV,
    acc: WhileV,
    state: WhileParseState,
) -> BlockParseV
    decreases remaining(ts.len() as int, i), 1nat,
{
    match unit_at(ts, i) {
        UnitV::UEnd => BlockParseV::BErr(not_closed_err(Marker::While, eof, while_loc)),
        UnitV::UInt(v, loc) => parse_while(
            ts,
            eof,
            i + 1,
            while_loc,
            while_append(acc, state, OpV { typ: OpTypeV::PushInt(v), loc }),
            state,
        ),
        UnitV::UIntrinsic(intr, loc) => parse_while(
            ts,
            eof,
            i + 1,
            while_loc,
            while_append(acc, state, OpV { typ: OpTypeV::Intrinsic(intr), loc }),
            state,
        ),
        UnitV::UUnknownWord(text, loc) => BlockParseV::BErr(unknown_word_err(text, loc)),
        UnitV::UMarker(m, loc) => match m {
            Marker::If => match parse_if(ts, eof, i + 1, loc, empty_if(), IfParseState::InIf) {
                BlockParseV::BOp(op, j) => parse_while(
                    ts,
                    eof,
                    adv(i, j),
                    while_loc,
                    while_append(acc, state, op),
                    state,
                ),
                BlockParseV::BErr(e) => BlockParseV::BErr(e),
            },
            Marker::While => match parse_while(
                ts,
                eof,
                i + 1,
                loc,
                empty_while(),
                WhileParseState::InCond,
            ) {
                BlockParseV::BOp(op, j) => parse_while(
                    ts,
                    eof,
                    adv(i, j),
                    while_loc,
                    while_append(acc, state, op),
                    state,
                ),
                BlockParseV::BErr(e) => BlockParseV::BErr(e),
            },
            Marker::Do => match state {
                WhileParseState::InCond => parse_while(
                    ts,
                    eof,
                    i + 1,
                    while_loc,
                    WhileV { do_loc: Some(loc), ..acc },
                    WhileParseState::InDo,
                ),
                WhileParseState::InDo => BlockParseV::BErr(
                    repeated_err(Marker::Do, Marker::While, loc, while_loc),
                ),
            },
            Marker::End => match state {
                WhileParseState::InCond => BlockParseV::BErr(missing_do_err(loc, while_loc)),
                WhileParseState::InDo => BlockParseV::BOp(
                    OpV { typ: OpTypeV::While(acc), loc: while_loc },
                    i + 1,
                ),
            },
            _ => BlockParseV::BErr(
                not_applicable_err(m, Marker::If, Marker::While, loc, while_loc),
            ),
        },
    }
}

/// Parses the root level from index `i`: a sequence of operations; a bare
/// marker at the root is a fatal free-floating-marker fault.
pub open spec fn parse_root(ts: Seq<TokenV>, eof: LocV, i: int) -> Result<Seq<OpV>, ErrV>
    decreases remaining(ts.len() as int, i), 2nat,
{
    match unit_at(ts, i) {
        UnitV::UEnd => Ok(Seq::empty()),
        UnitV::UInt(v, loc) => match parse_root(ts, eof, i + 1) {
            Ok(rest) => Ok(seq![OpV { typ: OpTypeV::PushInt(v), loc }] + rest),
            Err(e) => Err(e),
        },
        UnitV::UIntrinsic(intr, loc) => match parse_root(ts, eof, i + 1) {
            Ok(rest) => Ok(seq![OpV { typ: OpTypeV::Intrinsic(intr), loc }] + rest),
            Err(e) => Err(e),
        },
        UnitV::UUnknownWord(text, loc) => Err(unknown_word_err(text, loc)),
        UnitV::UMarker(m, loc) => match m {
            Marker::If => match parse_if(ts, eof, i + 1, loc, empty_if(), IfParseState::InIf) {
                BlockParseV::BOp(op, j) => match parse_root(ts, eof, adv(i, j)) {
                    Ok(rest) => Ok(seq![op] + rest),
                    Err(e) => Err(e),
                },
                BlockParseV::BErr(e) => Err(e),
            },
            Marker::While => match parse_while(
                ts,
                eof,
                i + 1,
                loc,
                empty_while(),
                WhileParseState::InCond,
            ) {
                BlockParseV::BOp(op, j) => match parse_root(ts, eof, adv(i, j)) {
                    Ok(rest) => Ok(seq![op] + rest),
                    Err(e) => Err(e),
                },
                BlockParseV::BErr(e) => Err(e),
            },
            _ => Err(free_floating_err(m, loc)),
        },
    }
}

/// What the whole front end yields for a lexed source: the root block or
/// the first parse fault.
pub open spec fn parse_result(lx: LexOut) -> Result<Seq<OpV>, ErrV> {
    parse_root(lx.tokens, lx.eof, 0)
}

// ------------------------------------------------------------------
// The executable parser, proved equal to the grammar above.
// ------------------------------------------------------------------
/// The blocks an in-progress `if` has accumulated, as the grammar sees
/// them: in the `if*` state the arm under construction counts as the last
/// `if*` block, in the `else` state the block under construction is the
/// `else` block.
pub open spec fn if_acc(
    if_block: OpBlock,
    stars: Seq<crate::op::IfStarBlock>,
    state: IfParseState,
    star_loc: FileLocation,
    star_cond: OpBlock,
    star_inner: OpBlock,
    else_blk: OpBlock,
) -> IfV {
    IfV {
        if_block: view_block(if_block),
        if_star_blocks: if state is InIfStar {
            crate::op::view_stars(stars).push(
                StarV {
                    loc: star_loc@,
                    cond: view_block(star_cond),
                    inner: view_block(star_inner),
                },
            )
        } else {
            crate::op::view_stars(stars)
        },
        else_block: if state is InElse {
            Some(view_block(else_blk))
        } else {
            None
        },
    }
}

/// The blocks an in-progress `while` has accumulated.
pub open spec fn while_acc(
    cond_blk: OpBlock,
    do_loc_opt: Option<FileLocation>,
    do_blk: OpBlock,
) -> WhileV {
    WhileV {
        cond_block: view_block(cond_blk),
        do_loc: match do_loc_opt {
            Some(l) => Some(l@),
            None => None,
        },
        do_block: view_block(do_blk),
    }
}


/// Moves the `if*` arm under construction into the finished list, leaving
/// the construction blocks empty.
fn finalize_star(
    stars: &mut Vec<crate::op::IfStarBlock>,
    star_loc: &FileLocation,
    star_cond: &mut OpBlock,
    star_inner: &mut OpBlock,
)
    requires
        crate::op::wf_stars(crate::op::view_stars(old(stars)@)),
        wf_ops(view_block(*old(star_cond))),
        wf_ops(view_block(*old(star_inner))),
    ensures
        crate::op::view_stars(final(stars)@) == crate::op::view_stars(old(stars)@).push(
            StarV {
                loc: star_loc@,
                cond: view_block(*old(star_cond)),
                inner: view_block(*old(star_inner)),
            },
        ),
        crate::op::wf_stars(crate::op::view_stars(final(stars)@)),
        view_block(*final(star_cond)) == Seq::<OpV>::empty(),
        view_block(*final(star_inner)) == Seq::<OpV>::empty(),
{
    let ghost pending = StarV {
        loc: star_loc@,
        cond: view_block(*star_cond),
        inner: view_block(*star_inner),
    };
    let mut fin_cond = OpBlock::new();
    core::mem::swap(&mut fin_cond, star_cond);
    let mut fin_inner = OpBlock::new();
    core::mem::swap(&mut fin_inner, star_inner);
    let ghost old_stars = stars@;
    stars.push(
        crate::op::IfStarBlock { loc: star_loc.clone(), cond: fin_cond, inner: fin_inner },
    );
    proof {
        assert(stars@.drop_last() =~= old_stars);
        assert(crate::op::view_star(stars@.last()) == pending);
        crate::op::lemma_wf_stars_push(crate::op::view_stars(old_stars), pending);
    }
}

/// Parses the inside of an `if` construct, starting right after its `if`
/// marker at index `i`.
#[verifier::loop_isolation(false)]
#[verifier::rlimit(100)]
fn parse_if_block(tokens: &Vec<Token>, eof_loc: &FileLocation, i: usize, if_loc: FileLocation)
    -> (r: (Result<Op, Error>, usize))
    requires
        i <= tokens@.len(),
    ensures
        r.1 <= tokens@.len(),
        match parse_if(
            crate::lex::view_tokens(tokens@),
            eof_loc@,
            i as int,
            if_loc@,
            empty_if(),
            IfParseState::InIf,
        ) {
            BlockParseV::BOp(opv, j) => r.0 matches Ok(op) && view_op(op) == opv && wf_op(opv)
                && r.1 == j && i < r.1,
            BlockParseV::BErr(e) => r.0 matches Err(err) && err@ == e,
        },
    decreases tokens@.len() - i, 1nat,
{
    let ghost ts = crate::lex::view_tokens(tokens@);
    let ghost whole = parse_if(ts, eof_loc@, i as int, if_loc@, empty_if(), IfParseState::InIf);
    proof {
        assert forall|k: int| 0 <= k < tokens@.len() implies ts[k] == (#[trigger] tokens@[k])@
            by {}
    }
    let mut if_block = OpBlock::new();
    let mut stars: Vec<crate::op::IfStarBlock> = Vec::new();
    let mut else_blk = OpBlock::new();
    let mut star_loc = if_loc.clone();
    let mut star_cond = OpBlock::new();
    let mut star_inner = OpBlock::new();
    let mut state = IfParseState::InIf;
    let mut cur = i;
    proof {
        assert(crate::op::view_stars(stars@) =~= Seq::<StarV>::empty());
        assert(if_acc(if_block, stars@, state, star_loc, star_cond, star_inner, else_blk)
            == empty_if());
    }
    loop
        invariant
            i <= cur <= tokens@.len(),
            whole == parse_if(
                ts,
                eof_loc@,
                cur as int,
                if_loc@,
                if_acc(if_block, stars@, state, star_loc, star_cond, star_inner, else_blk),
                state,
            ),
            wf_ops(view_block(if_block)),
            crate::op::wf_stars(crate::op::view_stars(stars@)),
            wf_ops(view_block(star_cond)),
            wf_ops(view_block(star_inner)),
            wf_ops(view_block(else_blk)),
        decreases tokens@.len() - cur,
    {
        let ghost acc = if_acc(if_block, stars@, state, star_loc, star_cond, star_inner, else_blk);
        if cur >= tokens.len() {
            let err = MissingMarker::BlockNotClosed.into_error(Marker::End).add_loc(
                eof_loc.clone(),
            ).push_info(InfoKind::BlockStart(Marker::If), if_loc);
            proof {
                assert(err@.infos =~= not_closed_err(Marker::If, eof_loc@, if_loc@).infos);
                assert(whole == BlockParseV::BErr(err@));
            }
            return (Err(err), cur);
        }
        let tok = &tokens[cur];
        let ghost tokv = ts[cur as int];
        let op: Op = match &tok.typ {
            crate::token::TokenType::Int(v) => {
                proof {
                    assert(unit_at(ts, cur as int) == UnitV::UInt(*v, tokv.loc));
                }
                let op = Op { typ: crate::op::OpType::PushInt(*v), loc: tok.loc.clone() };
                cur = cur + 1;
                op
            },
            crate::token::TokenType::Word(w) => match Intrinsic::from_bytes(w.as_bytes()) {
                Some(intr) => {
                    proof {
                        assert(unit_at(ts, cur as int) == UnitV::UIntrinsic(intr, tokv.loc));
                    }
                    let op = Op { typ: crate::op::OpType::Intrinsic(intr), loc: tok.loc.clone() };
                    cur = cur + 1;
                    op
                },
                None => {
                    proof {
                        assert(unit_at(ts, cur as int) == UnitV::UUnknownWord(w@, tokv.loc));
                    }
                    let err = crate::error::ParsingError::UnknownWord(w.to_vec()).into_error()
                        .add_loc(tok.loc.clone());
                    proof {
                        assert(whole == BlockParseV::BErr(err@));
                    }
                    return (Err(err), cur);
                },
            },
            crate::token::TokenType::Marker(m) => {
                let mk = *m;
                proof {
                    assert(unit_at(ts, cur as int) == UnitV::UMarker(mk, tokv.loc));
                }
                match mk {
                    Marker::If => {
                        let (res, j) = parse_if_block(tokens, eof_loc, cur + 1, tok.loc.clone());
                        match res {
                            Ok(op) => {
                                proof {
                                    assert(adv(cur as int, j as int) == j as int);
                                }
                                cur = j;
                                op
                            },
                            Err(err) => {
                                proof {
                                    assert(whole == BlockParseV::BErr(err@));
                                }
                                return (Err(err), cur);
                            },
                        }
                    },
                    Marker::While => {
                        let (res, j) = parse_while_block(tokens, eof_loc, cur + 1, tok.loc.clone());
                        match res {
                            Ok(op) => {
                                proof {
                                    assert(adv(cur as int, j as int) == j as int);
                                }
                                cur = j;
                                op
                            },
                            Err(err) => {
                                proof {
                                    assert(whole == BlockParseV::BErr(err@));
                                }
                                return (Err(err), cur);
                            },
                        }
                    },
                    Marker::Else => {
                        match state {
                            IfParseState::InElse => {
                                let err = UnexpectedMarker::Repeated(Marker::Else, Marker::If)
                                    .into_error(Marker::Else).add_loc(tok.loc.clone()).push_info(
                                    InfoKind::BlockStart(Marker::If),
                                    if_loc,
                                );
                                proof {
                                    assert(err@.infos =~= repeated_err(
                                        Marker::Else,
                                        Marker::If,
                                        tokv.loc,
                                        if_loc@,
                                    ).infos);
                                    assert(whole == BlockParseV::BErr(err@));
                                }
                                return (Err(err), cur);
                            },
                            IfParseState::InIfStar => {
                                finalize_star(&mut stars, &star_loc, &mut star_cond, &mut star_inner);
                                else_blk = OpBlock::new();
                                state = IfParseState::InElse;
                                cur = cur + 1;
                                proof {
                                    assert(if_acc(
                                        if_block,
                                        stars@,
                                        state,
                                        star_loc,
                                        star_cond,
                                        star_inner,
                                        else_blk,
                                    ) == (IfV { else_block: Some(Seq::<OpV>::empty()), ..acc }));
                                }
                                continue;
                            },
                            IfParseState::InIf => {
                                else_blk = OpBlock::new();
                                state = IfParseState::InElse;
                                cur = cur + 1;
                                proof {
                                    assert(if_acc(
                                        if_block,
                                        stars@,
                                        state,
                                        star_loc,
                                        star_cond,
                                        star_inner,
                                        else_blk,
                                    ) == (IfV { else_block: Some(Seq::<OpV>::empty()), ..acc }));
                                }
                                continue;
                            },
                        }
                    },
                    Marker::IfStar => {
                        match state {
                            IfParseState::InElse => {
                                star_loc = tok.loc.clone();
                                star_cond = OpBlock::new();
                                core::mem::swap(&mut star_cond, &mut else_blk);
                                star_inner = OpBlock::new();
                                state = IfParseState::InIfStar;
                                cur = cur + 1;
                                proof {
                                    assert(if_acc(
                                        if_block,
                                        stars@,
                                        state,
                                        star_loc,
                                        star_cond,
                                        star_inner,
                                        else_blk,
                                    ) == (IfV {
                                        if_star_blocks: acc.if_star_blocks.push(
                                            StarV {
                                                loc: tokv.loc,
                                                cond: acc.else_block->0,
                                                inner: Seq::empty(),
                                            },
                                        ),
                                        else_block: None,
                                        ..acc
                                    }));
                                }
                                continue;
                            },
                            _ => {
                                let err = UnexpectedMarker::General(Marker::IfStar, Marker::Else)
                                    .into_error(Marker::IfStar).add_loc(tok.loc.clone()).push_info(
                                    InfoKind::BlockStart(Marker::If),
                                    if_loc,
                                );
                                proof {
                                    assert(err@.infos =~= if_star_misplaced_err(
                                        tokv.loc,
                                        if_loc@,
                                    ).infos);
                                    assert(whole == BlockParseV::BErr(err@));
                                }
                                return (Err(err), cur);
                            },
                        }
                    },
                    Marker::End => {
                        if let IfParseState::InIfStar = state {
                            finalize_star(&mut stars, &star_loc, &mut star_cond, &mut star_inner);
                        }
                        let else_final: Option<OpBlock> = if let IfParseState::InElse = state {
                            let mut fin_else = OpBlock::new();
                            core::mem::swap(&mut fin_else, &mut else_blk);
                            Some(fin_else)
                        } else {
                            None
                        };
                        let mut fin_if = OpBlock::new();
                        core::mem::swap(&mut fin_if, &mut if_block);
                        let mut fin_stars: Vec<crate::op::IfStarBlock> = Vec::new();
                        core::mem::swap(&mut fin_stars, &mut stars);
                        let op = Op {
                            typ: crate::op::OpType::If(
                                crate::op::If {
                                    if_block: fin_if,
                                    if_star_blocks: fin_stars,
                                    else_block: else_final,
                                },
                            ),
                            loc: if_loc.clone(),
                        };
                        proof {
                            assert(view_op(op) == (OpV { typ: OpTypeV::If(acc), loc: if_loc@ }));
                            assert(wf_op(view_op(op)));
                            assert(whole == BlockParseV::BOp(
                                OpV { typ: OpTypeV::If(acc), loc: if_loc@ },
                                cur as int + 1,
                            ));
                        }
                        return (Ok(op), cur + 1);
                    },
                    Marker::Do => {
                        let err = UnexpectedMarker::NotApplicable(Marker::Do, Marker::If)
                            .into_error(Marker::Do).add_loc(tok.loc.clone()).push_info(
                            InfoKind::BlockStart(Marker::If),
                            if_loc,
                        );
                        proof {
                            assert(err@.infos =~= not_applicable_err(
                                Marker::Do,
                                Marker::If,
                                Marker::If,
                                tokv.loc,
                                if_loc@,
                            ).infos);
                            assert(whole == BlockParseV::BErr(err@));
                        }
                        return (Err(err), cur);
                    },
                }
            },
        };
        // A complete operation: append it to the block the state names.
        let ghost opv = view_op(op);
        proof {
            crate::op::lemma_wf_ops_push(view_block(if_block), opv);
            crate::op::lemma_wf_ops_push(view_block(star_inner), opv);
            crate::op::lemma_wf_ops_push(view_block(else_blk), opv);
        }
        match state {
            IfParseState::InIf => {
                if_block.push(op);
            },
            IfParseState::InIfStar => {
                star_inner.push(op);
            },
            IfParseState::InElse => {
                else_blk.push(op);
            },
        }
        proof {
            if state is InIfStar {
                let k = acc.if_star_blocks.len() - 1;
                assert(acc.if_star_blocks.update(
                    k,
                    StarV { inner: acc.if_star_blocks[k].inner.push(opv), ..acc.if_star_blocks[k] },
                ) =~= crate::op::view_stars(stars@).push(
                    StarV {
                        loc: star_loc@,
                        cond: view_block(star_cond),
                        inner: view_block(star_inner),
                    },
                ));
            }
            assert(if_acc(if_block, stars@, state, star_loc, star_cond, star_inner, else_blk)
                == if_append(acc, state, opv));
        }
    }
}

/// Parses the inside of a `while` construct, starting right after its
/// `while` marker at index `i`.
#[verifier::loop_isolation(false)]
#[verifier::rlimit(100)]
fn parse_while_block(tokens: &Vec<Token>, eof_loc: &FileLocation, i: usize, while_loc: FileLocation)
    -> (r: (Result<Op, Error>, usize))
    requires
        i <= tokens@.len(),
    ensures
        r.1 <= tokens@.len(),
        match parse_while(
            crate::lex::view_tokens(tokens@),
            eof_loc@,
            i as int,
            while_loc@,
            empty_while(),
            WhileParseState::InCond,
        ) {
            BlockParseV::BOp(opv, j) => r.0 matches Ok(op) && view_op(op) == opv && wf_op(opv)
                && r.1 == j && i < r.1,
            BlockParseV::BErr(e) => r.0 matches Err(err) && err@ == e,
        },
    decreases tokens@.len() - i, 1nat,
{
    let ghost ts = crate::lex::view_tokens(tokens@);
    let ghost whole = parse_while(
        ts,
        eof_loc@,
        i as int,
        while_loc@,
        empty_while(),
        WhileParseState::InCond,
    );
    proof {
        assert forall|k: int| 0 <= k < tokens@.len() implies ts[k] == (#[trigger] tokens@[k])@
            by {}
    }
    let mut cond_blk = OpBlock::new();
    let mut do_blk = OpBlock::new();
    let mut do_loc_opt: Option<FileLocation> = None;
    let mut state = WhileParseState::InCond;
    let mut cur = i;
    proof {
        assert(while_acc(cond_blk, do_loc_opt, do_blk) == empty_while());
    }
    loop
        invariant
            i <= cur <= tokens@.len(),
            whole == parse_while(
                ts,
                eof_loc@,
                cur as int,
                while_loc@,
                while_acc(cond_blk, do_loc_opt, do_blk),
                state,
            ),
            wf_ops(view_block(cond_blk)),
            wf_ops(view_block(do_blk)),
            state is InDo <==> do_loc_opt is Some,
        decreases tokens@.len() - cur,
    {
        let ghost acc = while_acc(cond_blk, do_loc_opt, do_blk);
        if cur >= tokens.len() {
            let err = MissingMarker::BlockNotClosed.into_error(Marker::End).add_loc(
                eof_loc.clone(),
            ).push_info(InfoKind::BlockStart(Marker::While), while_loc);
            proof {
                assert(err@.infos =~= not_closed_err(Marker::While, eof_loc@, while_loc@).infos);
                assert(whole == BlockParseV::BErr(err@));
            }
            return (Err(err), cur);
        }
        let tok = &tokens[cur];
        let ghost tokv = ts[cur as int];
        let op: Op = match &tok.typ {
            crate::token::TokenType::Int(v) => {
                proof {
                    assert(unit_at(ts, cur as int) == UnitV::UInt(*v, tokv.loc));
                }
                let op = Op { typ: crate::op::OpType::PushInt(*v), loc: tok.loc.clone() };
                cur = cur + 1;
                op
            },
            crate::token::TokenType::Word(w) => match Intrinsic::from_bytes(w.as_bytes()) {
                Some(intr) => {
                    proof {
                        assert(unit_at(ts, cur as int) == UnitV::UIntrinsic(intr, tokv.loc));
                    }
                    let op = Op { typ: crate::op::OpType::Intrinsic(intr), loc: tok.loc.clone() };
                    cur = cur + 1;
                    op
                },
                None => {
                    proof {
                        assert(unit_at(ts, cur as int) == UnitV::UUnknownWord(w@, tokv.loc));
                    }
                    let err = crate::error::ParsingError::UnknownWord(w.to_vec()).into_error()
                        .add_loc(tok.loc.clone());
                    proof {
                        assert(whole == BlockParseV::BErr(err@));
                    }
                    return (Err(err), cur);
                },
            },
            crate::token::TokenType::Marker(m) => {
                let mk = *m;
                proof {
                    assert(unit_at(ts, cur as int) == UnitV::UMarker(mk, tokv.loc));
                }
                match mk {
                    Marker::If => {
                        let (res, j) = parse_if_block(tokens, eof_loc, cur + 1, tok.loc.clone());
                        match res {
                            Ok(op) => {
                                proof {
                                    assert(adv(cur as int, j as int) == j as int);
                                }
                                cur = j;
                                op
                            },
                            Err(err) => {
                                proof {
                                    assert(whole == BlockParseV::BErr(err@));
                                }
                                return (Err(err), cur);
                            },
                        }
                    },
                    Marker::While => {
                        let (res, j) = parse_while_block(tokens, eof_loc, cur + 1, tok.loc.clone());
                        match res {
                            Ok(op) => {
                                proof {
                                    assert(adv(cur as int, j as int) == j as int);
                                }
                                cur = j;
                                op
                            },
                            Err(err) => {
                                proof {
                                    assert(whole == BlockParseV::BErr(err@));
                                }
                                return (Err(err), cur);
                            },
                        }
                    },
                    Marker::Do => {
                        match state {
                            WhileParseState::InCond => {
                                do_loc_opt = Some(tok.loc.clone());
                                state = WhileParseState::InDo;
                                cur = cur + 1;
                                proof {
                                    assert(while_acc(cond_blk, do_loc_opt, do_blk) == (WhileV {
                                        do_loc: Some(tokv.loc),
                                        ..acc
                                    }));
                                }
                                continue;
                            },
                            WhileParseState::InDo => {
                                let err = UnexpectedMarker::Repeated(Marker::Do, Marker::While)
                                    .into_error(Marker::Do).add_loc(tok.loc.clone()).push_info(
                                    InfoKind::BlockStart(Marker::While),
                                    while_loc,
                                );
                                proof {
                                    assert(err@.infos =~= repeated_err(
                                        Marker::Do,
                                        Marker::While,
                                        tokv.loc,
                                        while_loc@,
                                    ).infos);
                                    assert(whole == BlockParseV::BErr(err@));
                                }
                                return (Err(err), cur);
                            },
                        }
                    },
                    Marker::End => {
                        match state {
                            WhileParseState::InCond => {
                                let err = MissingMarker::RequiredByBlock(Marker::Do, Marker::While)
                                    .into_error(Marker::Do).add_loc(tok.loc.clone()).push_info(
                                    InfoKind::BlockStart(Marker::While),
                                    while_loc,
                                );
                                proof {
                                    assert(err@.infos =~= missing_do_err(
                                        tokv.loc,
                                        while_loc@,
                                    ).infos);
                                    assert(whole == BlockParseV::BErr(err@));
                                }
                                return (Err(err), cur);
                            },
                            WhileParseState::InDo => {
                                let mut fin_cond = OpBlock::new();
                                core::mem::swap(&mut fin_cond, &mut cond_blk);
                                let mut fin_do = OpBlock::new();
                                core::mem::swap(&mut fin_do, &mut do_blk);
                                let mut fin_do_loc: Option<FileLocation> = None;
                                core::mem::swap(&mut fin_do_loc, &mut do_loc_opt);
                                let op = Op {
                                    typ: crate::op::OpType::While(
                                        crate::op::While {
                                            cond_block: fin_cond,
                                            do_loc: fin_do_loc,
                                            do_block: fin_do,
                                        },
                                    ),
                                    loc: while_loc.clone(),
                                };
                                proof {
                                    assert(view_op(op) == (OpV {
                                        typ: OpTypeV::While(acc),
                                        loc: while_loc@,
                                    }));
                                    assert(wf_op(view_op(op)));
                                    assert(whole == BlockParseV::BOp(
                                        OpV { typ: OpTypeV::While(acc), loc: while_loc@ },
                                        cur as int + 1,
                                    ));
                                }
                                return (Ok(op), cur + 1);
                            },
                        }
                    },
                    _ => {
                        let err = UnexpectedMarker::NotApplicable(mk, Marker::If).into_error(mk)
                            .add_loc(tok.loc.clone()).push_info(
                            InfoKind::BlockStart(Marker::While),
                            while_loc,
                        );
                        proof {
                            assert(err@.infos =~= not_applicable_err(
                                mk,
                                Marker::If,
                                Marker::While,
                                tokv.loc,
                                while_loc@,
                            ).infos);
                            assert(whole == BlockParseV::BErr(err@));
                        }
                        return (Err(err), cur);
                    },
                }
            },
        };
        // A complete operation: append it to the block the state names.
        let ghost opv = view_op(op);
        proof {
            crate::op::lemma_wf_ops_push(view_block(cond_blk), opv);
            crate::op::lemma_wf_ops_push(view_block(do_blk), opv);
        }
        match state {
            WhileParseState::InCond => {
                cond_blk.push(op);
            },
            WhileParseState::InDo => {
                do_blk.push(op);
            },
        }
        proof {
            assert(while_acc(cond_blk, do_loc_opt, do_blk) == while_append(acc, state, opv));
        }
    }
}

/// Parses the whole token stream into the root block: a sequence of
/// operations in which every control marker has been consumed into a
/// complete construct.
#[verifier::loop_isolation(false)]
#[verifier::rlimit(100)]
pub fn parse_tokens(tokens: Vec<Token>, eof_loc: FileLocation) -> (r: Result<OpBlock, Error>)
    ensures
        match parse_root(crate::lex::view_tokens(tokens@), eof_loc@, 0) {
            Ok(opsv) => r matches Ok(b) && view_block(b) == opsv && wf_ops(opsv),
            Err(e) => r matches Err(err) && err@ == e,
        },
{
    let ghost ts = crate::lex::view_tokens(tokens@);
    proof {
        assert forall|k: int| 0 <= k < tokens@.len() implies ts[k] == (#[trigger] tokens@[k])@
            by {}
    }
    let mut root = OpBlock::new();
    let mut cur: usize = 0;
    loop
        invariant
            cur <= tokens@.len(),
            wf_ops(view_block(root)),
            match parse_root(ts, eof_loc@, cur as int) {
                Ok(rest) => parse_root(ts, eof_loc@, 0) == Ok::<Seq<OpV>, ErrV>(
                    view_block(root) + rest,
                ),
                Err(e) => parse_root(ts, eof_loc@, 0) == Err::<Seq<OpV>, ErrV>(e),
            },
        decreases tokens@.len() - cur,
    {
        let ghost before = view_block(root);
        if cur >= tokens.len() {
            proof {
                assert(parse_root(ts, eof_loc@, cur as int) == Ok::<Seq<OpV>, ErrV>(Seq::empty()));
                assert(before + Seq::<OpV>::empty() =~= before);
            }
            return Ok(root);
        }
        let tok = &tokens[cur];
        let ghost tokv = ts[cur as int];
        let op: Op = match &tok.typ {
            crate::token::TokenType::Int(v) => {
                proof {
                    assert(unit_at(ts, cur as int) == UnitV::UInt(*v, tokv.loc));
                }
                let op = Op { typ: crate::op::OpType::PushInt(*v), loc: tok.loc.clone() };
                cur = cur + 1;
                op
            },
            crate::token::TokenType::Word(w) => match Intrinsic::from_bytes(w.as_bytes()) {
                Some(intr) => {
                    proof {
                        assert(unit_at(ts, cur as int) == UnitV::UIntrinsic(intr, tokv.loc));
                    }
                    let op = Op { typ: crate::op::OpType::Intrinsic(intr), loc: tok.loc.clone() };
                    cur = cur + 1;
                    op
                },
                None => {
                    proof {
                        assert(unit_at(ts, cur as int) == UnitV::UUnknownWord(w@, tokv.loc));
                    }
                    let err = crate::error::ParsingError::UnknownWord(w.to_vec()).into_error()
                        .add_loc(tok.loc.clone());
                    proof {
                        assert(parse_root(ts, eof_loc@, cur as int) == Err::<Seq<OpV>, ErrV>(err@));
                    }
                    return Err(err);
                },
            },
            crate::token::TokenType::Marker(m) => {
                let mk = *m;
                proof {
                    assert(unit_at(ts, cur as int) == UnitV::UMarker(mk, tokv.loc));
                }
                match mk {
                    Marker::If => {
                        let (res, j) = parse_if_block(&tokens, &eof_loc, cur + 1, tok.loc.clone());
                        match res {
                            Ok(op) => {
                                proof {
                                    assert(adv(cur as int, j as int) == j as int);
                                }
                                cur = j;
                                op
                            },
                            Err(err) => {
                                proof {
                                    assert(parse_root(ts, eof_loc@, cur as int) == Err::<
                                        Seq<OpV>,
                                        ErrV,
                                    >(err@));
                                }
                                return Err(err);
                            },
                        }
                    },
                    Marker::While => {
                        let (res, j) = parse_while_block(
                            &tokens,
                            &eof_loc,
                            cur + 1,
                            tok.loc.clone(),
                        );
                        match res {
                            Ok(op) => {
                                proof {
                                    assert(adv(cur as int, j as int) == j as int);
                                }
                                cur = j;
                                op
                            },
                            Err(err) => {
                                proof {
                                    assert(parse_root(ts, eof_loc@, cur as int) == Err::<
                                        Seq<OpV>,
                                        ErrV,
                                    >(err@));
                                }
                                return Err(err);
                            },
                        }
                    },
                    _ => {
                        let err = UnexpectedMarker::FreeFloating(mk).into_error(mk).add_loc(
                            tok.loc.clone(),
                        );
                        proof {
                            assert(parse_root(ts, eof_loc@, cur as int) == Err::<Seq<OpV>, ErrV>(
                                err@,
                            ));
                        }
                        return Err(err);
                    },
                }
            },
        };
        let ghost opv = view_op(op);
        proof {
            crate::op::lemma_wf_ops_push(before, opv);
        }
        root.push(op);
        proof {
            if parse_root(ts, eof_loc@, cur as int) is Ok {
                let rest2 = parse_root(ts, eof_loc@, cur as int)->Ok_0;
                assert(before + (seq![opv] + rest2) =~= view_block(root) + rest2);
            }
        }
    }
}

// ------------------------------------------------------------------
// Laws of the grammar.
// ------------------------------------------------------------------
/// A token that parses to a single operation on its own: an integer or a
/// word that resolves to an intrinsic.
pub open spec fn plain_token(t: TokenV) -> bool {
    match t.typ {
        TokenTypeV::Int(_) => true,
        TokenTypeV::Word(w) => intrinsic_of(w) is Some,
        TokenTypeV::Marker(_) => false,
    }
}

proof fn lemma_if_runs_out(
    ts: Seq<TokenV>,
    eof: LocV,
    i: int,
    if_loc: LocV,
    acc: IfV,
    state: IfParseState,
)
    requires
        0 <= i,
        forall|k: int| i <= k < ts.len() ==> plain_token(#[trigger] ts[k]),
    ensures
        parse_if(ts, eof, i, if_loc, acc, state) == BlockParseV::BErr(
            not_closed_err(Marker::If, eof, if_loc),
        ),
    decreases ts.len() - i,
{
    if i < ts.len() {
        match unit_at(ts, i) {
            UnitV::UInt(v, loc) => {
                lemma_if_runs_out(
                    ts,
                    eof,
                    i + 1,
                    if_loc,
                    if_append(acc, state, OpV { typ: OpTypeV::PushInt(v), loc }),
                    state,
                );
            },
            UnitV::UIntrinsic(intr, loc) => {
                lemma_if_runs_out(
                    ts,
                    eof,
                    i + 1,
                    if_loc,
                    if_append(acc, state, OpV { typ: OpTypeV::Intrinsic(intr), loc }),
                    state,
                );
            },
            _ => {
                assert(plain_token(ts[i]));
            },
        }
    }
}

/// Law: a source that opens an `if` and then holds only plain operations —
/// the stream runs out before any `end` — fails with the block-not-closed
/// fault, located at the end of the source, with exactly one note pointing
/// at the `if` that opened the block.
pub proof fn lemma_unclosed_if_fails(ts: Seq<TokenV>, eof: LocV)
    requires
        ts.len() >= 1,
        ts[0].typ == TokenTypeV::Marker(Marker::If),
        forall|k: int| 1 <= k < ts.len() ==> plain_token(#[trigger] ts[k]),
    ensures
        parse_root(ts, eof, 0) == Err::<Seq<OpV>, ErrV>(
            not_closed_err(Marker::If, eof, ts[0].loc),
        ),
{
    lemma_if_runs_out(ts, eof, 1, ts[0].loc, empty_if(), IfParseState::InIf);
}

/// Law: a word that resolves to no intrinsic, preceded only by plain
/// operations, fails the parse with the unknown-word fault at the word's
/// own location — before any evaluation can have taken place, since only a
/// fully parsed program can be evaluated.
pub proof fn lemma_unknown_word_fails(ts: Seq<TokenV>, eof: LocV, i: int, k: int)
    requires
        0 <= i <= k < ts.len(),
        ts[k].typ is Word,
        intrinsic_of(ts[k].typ->Word_0) is None,
        forall|j: int| i <= j < k ==> plain_token(#[trigger] ts[j]),
    ensures
        parse_root(ts, eof, i) == Err::<Seq<OpV>, ErrV>(
            unknown_word_err(ts[k].typ->Word_0, ts[k].loc),
        ),
    decreases k - i,
{
    if i < k {
        lemma_unknown_word_fails(ts, eof, i + 1, k);
        assert(plain_token(ts[i]));
    }
}


// ------------------------------------------------------------------
// Rendering a parsed tree back into tokens, and the round-trip law.
// ------------------------------------------------------------------
/// The token an intrinsic renders to is classified back to the same
/// intrinsic.
pub proof fn lemma_intrinsic_bytes_inverse(i: Intrinsic)
    ensures
        intrinsic_of(intrinsic_bytes(i)) == Some(i),
{
    assert(intrinsic_bytes(Intrinsic::Drop) != intrinsic_bytes(Intrinsic::Swap)) by {
        assert(intrinsic_bytes(Intrinsic::Drop)[0] == 100u8);
        assert(intrinsic_bytes(Intrinsic::Swap)[0] == 115u8);
    }
    assert(intrinsic_bytes(Intrinsic::Over) != intrinsic_bytes(Intrinsic::Swap)) by {
        assert(intrinsic_bytes(Intrinsic::Over)[0] == 111u8);
        assert(intrinsic_bytes(Intrinsic::Swap)[0] == 115u8);
    }
    assert(intrinsic_bytes(Intrinsic::Over) != intrinsic_bytes(Intrinsic::Drop)) by {
        assert(intrinsic_bytes(Intrinsic::Over)[0] == 111u8);
        assert(intrinsic_bytes(Intrinsic::Drop)[0] == 100u8);
    }
    assert(intrinsic_bytes(Intrinsic::Rot) != intrinsic_bytes(Intrinsic::Dup)) by {
        assert(intrinsic_bytes(Intrinsic::Rot)[0] == 114u8);
        assert(intrinsic_bytes(Intrinsic::Dup)[0] == 100u8);
    }
    assert(intrinsic_bytes(Intrinsic::Subtract) != intrinsic_bytes(Intrinsic::Plus)) by {
        assert(intrinsic_bytes(Intrinsic::Subtract)[0] == 45u8);
        assert(intrinsic_bytes(Intrinsic::Plus)[0] == 43u8);
    }
    assert(intrinsic_bytes(Intrinsic::Multiply) != intrinsic_bytes(Intrinsic::Plus)) by {
        assert(intrinsic_bytes(Intrinsic::Multiply)[0] == 42u8);
        assert(intrinsic_bytes(Intrinsic::Plus)[0] == 43u8);
    }
    assert(intrinsic_bytes(Intrinsic::Multiply) != intrinsic_bytes(Intrinsic::Subtract)) by {
        assert(intrinsic_bytes(Intrinsic::Multiply)[0] == 42u8);
        assert(intrinsic_bytes(Intrinsic::Subtract)[0] == 45u8);
    }
}

/// The token stream a single operation dumps to. Locations the tree does
/// not store (`else`, `end`) take the construct's own.
pub open spec fn render_op(op: OpV) -> Seq<TokenV>
    decreases op, 2nat, 0nat,
{
    match op.typ {
        OpTypeV::PushInt(v) => seq![TokenV { typ: TokenTypeV::Int(v), loc: op.loc }],
        OpTypeV::Intrinsic(i) => seq![
            TokenV { typ: TokenTypeV::Word(intrinsic_bytes(i)), loc: op.loc },
        ],
        OpTypeV::If(f) => seq![TokenV { typ: TokenTypeV::Marker(Marker::If), loc: op.loc }]
            + render_ops(f.if_block) + render_stars(f.if_star_blocks) + render_else(
            f.else_block,
            op.loc,
        ) + seq![TokenV { typ: TokenTypeV::Marker(Marker::End), loc: op.loc }],
        OpTypeV::While(w) => seq![TokenV { typ: TokenTypeV::Marker(Marker::While), loc: op.loc }]
            + render_ops(w.cond_block) + seq![
            TokenV { typ: TokenTypeV::Marker(Marker::Do), loc: w.do_loc->0 },
        ] + render_ops(w.do_block) + seq![
            TokenV { typ: TokenTypeV::Marker(Marker::End), loc: op.loc },
        ],
    }
}

/// The token stream a sequence of operations dumps to.
pub open spec fn render_ops(ops: Seq<OpV>) -> Seq<TokenV>
    decreases ops, 2nat, 0nat,
{
    if ops.len() == 0 {
        Seq::empty()
    } else {
        render_op(ops[0]) + render_ops(ops.drop_first())
    }
}

/// The token stream the `else`/`if*` arms dump to: each arm is an `else`,
/// its condition block, an `if*`, and the arm's body.
pub open spec fn render_stars(stars: Seq<StarV>) -> Seq<TokenV>
    decreases stars, 2nat, 0nat,
{
    if stars.len() == 0 {
        Seq::empty()
    } else {
        let star = stars[0];
        seq![TokenV { typ: TokenTypeV::Marker(Marker::Else), loc: star.loc }] + render_ops(
            star.cond,
        ) + seq![TokenV { typ: TokenTypeV::Marker(Marker::IfStar), loc: star.loc }] + render_ops(
            star.inner,
        ) + render_stars(stars.drop_first())
    }
}

/// The token stream a final `else` block dumps to, if there is one.
pub open spec fn render_else(els: Option<Seq<OpV>>, loc: LocV) -> Seq<TokenV>
    decreases els, 2nat, 0nat,
{
    match els {
        Some(b) => seq![TokenV { typ: TokenTypeV::Marker(Marker::Else), loc }] + render_ops(b),
        None => Seq::empty(),
    }
}

/// Consuming a rendered token segment: elements of the segment read off
/// the stream, and the stream past the segment.
proof fn lemma_segment(ts: Seq<TokenV>, i: int, seg: Seq<TokenV>)
    requires
        0 <= i,
        i + seg.len() <= ts.len(),
        ts.subrange(i, i + seg.len()) == seg,
    ensures
        forall|k: int| 0 <= k < seg.len() ==> ts[i + k] == #[trigger] seg[k],
{
    assert forall|k: int| 0 <= k < seg.len() implies ts[i + k] == #[trigger] seg[k] by {
        assert(ts.subrange(i, i + seg.len())[k] == ts[i + k]);
    }
}

/// A leading piece of a segment is itself a segment, and so is what
/// follows it.
proof fn lemma_segment_split(ts: Seq<TokenV>, i: int, a: Seq<TokenV>, b: Seq<TokenV>)
    requires
        0 <= i,
        i + a.len() + b.len() <= ts.len(),
        ts.subrange(i, i + a.len() + b.len()) == a + b,
    ensures
        ts.subrange(i, i + a.len()) == a,
        ts.subrange(i + a.len(), i + a.len() + b.len()) == b,
{
    let whole = ts.subrange(i, i + a.len() + b.len());
    assert(ts.subrange(i, i + a.len()) =~= a) by {
        assert forall|k: int| 0 <= k < a.len() implies ts.subrange(i, i + a.len())[k] == a[k] by {
            assert(whole[k] == (a + b)[k]);
        }
    }
    assert(ts.subrange(i + a.len(), i + a.len() + b.len()) =~= b) by {
        assert forall|k: int|
            0 <= k < b.len() implies ts.subrange(i + a.len(), i + a.len() + b.len())[k] == b[k] by {
            assert(whole[a.len() + k] == (a + b)[a.len() + k]);
        }
    }
}

/// Appending a whole sequence of operations, one at a time.
pub open spec fn if_append_all(acc: IfV, state: IfParseState, ops: Seq<OpV>) -> IfV
    decreases ops.len(),
{
    if ops.len() == 0 {
        acc
    } else {
        if_append_all(if_append(acc, state, ops[0]), state, ops.drop_first())
    }
}

pub open spec fn while_append_all(acc: WhileV, state: WhileParseState, ops: Seq<OpV>) -> WhileV
    decreases ops.len(),
{
    if ops.len() == 0 {
        acc
    } else {
        while_append_all(while_append(acc, state, ops[0]), state, ops.drop_first())
    }
}

proof fn lemma_fold_if(acc: IfV, ops: Seq<OpV>)
    ensures
        if_append_all(acc, IfParseState::InIf, ops) == (IfV {
            if_block: acc.if_block + ops,
            ..acc
        }),
    decreases ops.len(),
{
    if ops.len() == 0 {
        assert(acc.if_block + ops =~= acc.if_block);
    } else {
        lemma_fold_if(if_append(acc, IfParseState::InIf, ops[0]), ops.drop_first());
        assert(acc.if_block.push(ops[0]) + ops.drop_first() =~= acc.if_block + ops);
    }
}

proof fn lemma_fold_else(acc: IfV, ops: Seq<OpV>)
    requires
        acc.else_block is Some,
    ensures
        if_append_all(acc, IfParseState::InElse, ops) == (IfV {
            else_block: Some(acc.else_block->0 + ops),
            ..acc
        }),
    decreases ops.len(),
{
    if ops.len() == 0 {
        assert(acc.else_block->0 + ops =~= acc.else_block->0);
    } else {
        lemma_fold_else(if_append(acc, IfParseState::InElse, ops[0]), ops.drop_first());
        assert(acc.else_block->0.push(ops[0]) + ops.drop_first() =~= acc.else_block->0 + ops);
    }
}

proof fn lemma_fold_star(acc: IfV, ops: Seq<OpV>)
    requires
        acc.if_star_blocks.len() > 0,
    ensures
        ({
            let k = acc.if_star_blocks.len() - 1;
            let star = acc.if_star_blocks[k];
            if_append_all(acc, IfParseState::InIfStar, ops) == (IfV {
                if_star_blocks: acc.if_star_blocks.update(
                    k,
                    StarV { inner: star.inner + ops, ..star },
                ),
                ..acc
            })
        }),
    decreases ops.len(),
{
    let k = acc.if_star_blocks.len() - 1;
    let star = acc.if_star_blocks[k];
    if ops.len() == 0 {
        assert(star.inner + ops =~= star.inner);
        assert(acc.if_star_blocks.update(k, StarV { inner: star.inner + ops, ..star })
            =~= acc.if_star_blocks);
    } else {
        let acc1 = if_append(acc, IfParseState::InIfStar, ops[0]);
        lemma_fold_star(acc1, ops.drop_first());
        assert(acc1.if_star_blocks.len() - 1 == k);
        assert(acc1.if_star_blocks[k] == (StarV { inner: star.inner.push(ops[0]), ..star }));
        assert(star.inner.push(ops[0]) + ops.drop_first() =~= star.inner + ops);
        assert(acc1.if_star_blocks.update(
            k,
            StarV { inner: star.inner.push(ops[0]) + ops.drop_first(), ..star },
        ) =~= acc.if_star_blocks.update(k, StarV { inner: star.inner + ops, ..star }));
    }
}

proof fn lemma_fold_while(acc: WhileV, state: WhileParseState, ops: Seq<OpV>)
    ensures
        while_append_all(acc, state, ops) == (match state {
            WhileParseState::InCond => WhileV { cond_block: acc.cond_block + ops, ..acc },
            WhileParseState::InDo => WhileV { do_block: acc.do_block + ops, ..acc },
        }),
    decreases ops.len(),
{
    if ops.len() == 0 {
        assert(acc.cond_block + ops =~= acc.cond_block);
        assert(acc.do_block + ops =~= acc.do_block);
    } else {
        lemma_fold_while(while_append(acc, state, ops[0]), state, ops.drop_first());
        assert(acc.cond_block.push(ops[0]) + ops.drop_first() =~= acc.cond_block + ops);
        assert(acc.do_block.push(ops[0]) + ops.drop_first() =~= acc.do_block + ops);
    }
}


proof fn lemma_wf_ops_drop_first(ops: Seq<OpV>)
    requires
        wf_ops(ops),
        ops.len() > 0,
    ensures
        wf_ops(ops.drop_first()),
{
    assert forall|k: int| 0 <= k < ops.drop_first().len() implies wf_op(
        #[trigger] ops.drop_first()[k],
    ) by {
        assert(ops.drop_first()[k] == ops[k + 1]);
        assert(wf_op(ops[k + 1]));
    }
}

/// Inside an `if`, a rendered operation sequence is consumed whole: the
/// parse continues right past it with the operations appended.
proof fn lemma_render_if_ctx(
    ts: Seq<TokenV>,
    eof: LocV,
    i: int,
    if_loc: LocV,
    acc: IfV,
    state: IfParseState,
    ops: Seq<OpV>,
)
    requires
        0 <= i,
        i + render_ops(ops).len() <= ts.len(),
        ts.subrange(i, i + render_ops(ops).len()) == render_ops(ops),
        wf_ops(ops),
    ensures
        parse_if(ts, eof, i, if_loc, acc, state) == parse_if(
            ts,
            eof,
            i + render_ops(ops).len(),
            if_loc,
            if_append_all(acc, state, ops),
            state,
        ),
    decreases ops, 2nat, 0nat,
{
    if ops.len() > 0 {
        let op0 = ops[0];
        let seg0 = render_op(op0);
        let rest = render_ops(ops.drop_first());
        assert(render_ops(ops) == seg0 + rest);
        lemma_segment_split(ts, i, seg0, rest);
        lemma_segment(ts, i, seg0);
        lemma_wf_ops_drop_first(ops);
        assert(wf_op(op0));
        let acc1 = if_append(acc, state, op0);
        match op0.typ {
            OpTypeV::PushInt(v) => {
                assert(ts[i] == seg0[0]);
                assert(unit_at(ts, i) == UnitV::UInt(v, op0.loc));
                lemma_render_if_ctx(ts, eof, i + 1, if_loc, acc1, state, ops.drop_first());
            },
            OpTypeV::Intrinsic(intr) => {
                assert(ts[i] == seg0[0]);
                lemma_intrinsic_bytes_inverse(intr);
                assert(unit_at(ts, i) == UnitV::UIntrinsic(intr, op0.loc));
                lemma_render_if_ctx(ts, eof, i + 1, if_loc, acc1, state, ops.drop_first());
            },
            OpTypeV::If(f) => {
                assert(ts[i] == seg0[0]);
                assert(unit_at(ts, i) == UnitV::UMarker(Marker::If, op0.loc));
                lemma_render_if_construct(ts, eof, i, op0);
                let j = i + seg0.len();
                assert(adv(i, j) == j);
                lemma_render_if_ctx(ts, eof, j, if_loc, acc1, state, ops.drop_first());
            },
            OpTypeV::While(w) => {
                assert(ts[i] == seg0[0]);
                assert(unit_at(ts, i) == UnitV::UMarker(Marker::While, op0.loc));
                lemma_render_while_construct(ts, eof, i, op0);
                let j = i + seg0.len();
                assert(adv(i, j) == j);
                lemma_render_if_ctx(ts, eof, j, if_loc, acc1, state, ops.drop_first());
            },
        }
    }
}

/// Inside a `while`, a rendered operation sequence is consumed whole.
proof fn lemma_render_while_ctx(
    ts: Seq<TokenV>,
    eof: LocV,
    i: int,
    while_loc: LocV,
    acc: WhileV,
    state: WhileParseState,
    ops: Seq<OpV>,
)
    requires
        0 <= i,
        i + render_ops(ops).len() <= ts.len(),
        ts.subrange(i, i + render_ops(ops).len()) == render_ops(ops),
        wf_ops(ops),
    ensures
        parse_while(ts, eof, i, while_loc, acc, state) == parse_while(
            ts,
            eof,
            i + render_ops(ops).len(),
            while_loc,
            while_append_all(acc, state, ops),
            state,
        ),
    decreases ops, 2nat, 0nat,
{
    if ops.len() > 0 {
        let op0 = ops[0];
        let seg0 = render_op(op0);
        let rest = render_ops(ops.drop_first());
        assert(render_ops(ops) == seg0 + rest);
        lemma_segment_split(ts, i, seg0, rest);
        lemma_segment(ts, i, seg0);
        lemma_wf_ops_drop_first(ops);
        assert(wf_op(op0));
        let acc1 = while_append(acc, state, op0);
        match op0.typ {
            OpTypeV::PushInt(v) => {
                assert(ts[i] == seg0[0]);
                assert(unit_at(ts, i) == UnitV::UInt(v, op0.loc));
                lemma_render_while_ctx(ts, eof, i + 1, while_loc, acc1, state, ops.drop_first());
            },
            OpTypeV::Intrinsic(intr) => {
                assert(ts[i] == seg0[0]);
                lemma_intrinsic_bytes_inverse(intr);
                assert(unit_at(ts, i) == UnitV::UIntrinsic(intr, op0.loc));
                lemma_render_while_ctx(ts, eof, i + 1, while_loc, acc1, state, ops.drop_first());
            },
            OpTypeV::If(f) => {
                assert(ts[i] == seg0[0]);
                assert(unit_at(ts, i) == UnitV::UMarker(Marker::If, op0.loc));
                lemma_render_if_construct(ts, eof, i, op0);
                let j = i + seg0.len();
                assert(adv(i, j) == j);
                lemma_render_while_ctx(ts, eof, j, while_loc, acc1, state, ops.drop_first());
            },
            OpTypeV::While(w) => {
                assert(ts[i] == seg0[0]);
                assert(unit_at(ts, i) == UnitV::UMarker(Marker::While, op0.loc));
                lemma_render_while_construct(ts, eof, i, op0);
                let j = i + seg0.len();
                assert(adv(i, j) == j);
                lemma_render_while_ctx(ts, eof, j, while_loc, acc1, state, ops.drop_first());
            },
        }
    }
}

/// Parsing the rendered arms, final `else` and `end` of an `if` whose
/// first `k` arms are already in the accumulator finishes the construct.
proof fn lemma_render_if_stars(
    ts: Seq<TokenV>,
    eof: LocV,
    i: int,
    op: OpV,
    k: int,
    state: IfParseState,
)
    requires
        op.typ is If,
        wf_op(op),
        0 <= k <= op.typ->If_0.if_star_blocks.len(),
        !(state is InElse),
        0 <= i,
        i + render_stars(op.typ->If_0.if_star_blocks.skip(k)).len() + render_else(
            op.typ->If_0.else_block,
            op.loc,
        ).len() + 1 <= ts.len(),
        ts.subrange(
            i,
            i + render_stars(op.typ->If_0.if_star_blocks.skip(k)).len() + render_else(
                op.typ->If_0.else_block,
                op.loc,
            ).len() + 1,
        ) == render_stars(op.typ->If_0.if_star_blocks.skip(k)) + render_else(
            op.typ->If_0.else_block,
            op.loc,
        ) + seq![TokenV { typ: TokenTypeV::Marker(Marker::End), loc: op.loc }],
    ensures
        parse_if(
            ts,
            eof,
            i,
            op.loc,
            IfV {
                if_block: op.typ->If_0.if_block,
                if_star_blocks: op.typ->If_0.if_star_blocks.take(k),
                else_block: None,
            },
            state,
        ) == BlockParseV::BOp(
            op,
            i + render_stars(op.typ->If_0.if_star_blocks.skip(k)).len() + render_else(
                op.typ->If_0.else_block,
                op.loc,
            ).len() + 1,
        ),
    decreases op, 0nat, op.typ->If_0.if_star_blocks.len() - k,
{
    let f = op.typ->If_0;
    let starseg = render_stars(f.if_star_blocks.skip(k));
    let elseseg = render_else(f.else_block, op.loc);
    let endseg = seq![TokenV { typ: TokenTypeV::Marker(Marker::End), loc: op.loc }];
    let acc = IfV {
        if_block: f.if_block,
        if_star_blocks: f.if_star_blocks.take(k),
        else_block: None,
    };
    lemma_segment(ts, i, starseg + elseseg + endseg);
    if k == f.if_star_blocks.len() {
        assert(f.if_star_blocks.skip(k).len() == 0);
        assert(starseg =~= Seq::<TokenV>::empty());
        assert(f.if_star_blocks.take(k) =~= f.if_star_blocks);
        match f.else_block {
            None => {
                assert(elseseg =~= Seq::<TokenV>::empty());
                assert(ts[i] == (starseg + elseseg + endseg)[0]);
                assert(unit_at(ts, i) == UnitV::UMarker(Marker::End, op.loc));
                assert(acc == f);
                assert(parse_if(ts, eof, i, op.loc, acc, state) == BlockParseV::BOp(
                    OpV { typ: OpTypeV::If(acc), loc: op.loc },
                    i + 1,
                ));
            },
            Some(b) => {
                assert(wf_ops(b));
                let else_tok = seq![TokenV { typ: TokenTypeV::Marker(Marker::Else), loc: op.loc }];
                assert(elseseg == else_tok + render_ops(b));
                assert(ts[i] == (starseg + elseseg + endseg)[0]);
                assert(unit_at(ts, i) == UnitV::UMarker(Marker::Else, op.loc));
                let acc_e = IfV { else_block: Some(Seq::<OpV>::empty()), ..acc };
                assert(parse_if(ts, eof, i, op.loc, acc, state) == parse_if(
                    ts,
                    eof,
                    i + 1,
                    op.loc,
                    acc_e,
                    IfParseState::InElse,
                ));
                let bl = render_ops(b).len() as int;
                assert(ts.subrange(i + 1, i + 1 + bl) =~= render_ops(b)) by {
                    assert forall|x: int| 0 <= x < bl implies ts.subrange(i + 1, i + 1 + bl)[x]
                        == render_ops(b)[x] by {
                        assert(ts[i + 1 + x] == (starseg + elseseg + endseg)[1 + x]);
                    }
                }
                lemma_render_if_ctx(ts, eof, i + 1, op.loc, acc_e, IfParseState::InElse, b);
                lemma_fold_else(acc_e, b);
                let acc2 = if_append_all(acc_e, IfParseState::InElse, b);
                assert(Seq::<OpV>::empty() + b =~= b);
                assert(acc2 == (IfV { else_block: Some(b), ..acc }));
                assert(acc2 == f);
                let i2 = i + 1 + bl;
                assert(ts[i2] == (starseg + elseseg + endseg)[1 + bl]);
                assert(unit_at(ts, i2) == UnitV::UMarker(Marker::End, op.loc));
                assert(parse_if(ts, eof, i2, op.loc, acc2, IfParseState::InElse)
                    == BlockParseV::BOp(OpV { typ: OpTypeV::If(acc2), loc: op.loc }, i2 + 1));
            },
        }
    } else {
        let star = f.if_star_blocks[k];
        assert(wf_stars(f.if_star_blocks));
        assert(crate::op::wf_star(f.if_star_blocks[k]));
        let skipped = f.if_star_blocks.skip(k);
        assert(skipped[0] == star);
        assert(skipped.drop_first() =~= f.if_star_blocks.skip(k + 1));
        let else_tok = seq![TokenV { typ: TokenTypeV::Marker(Marker::Else), loc: star.loc }];
        let star_tok = seq![TokenV { typ: TokenTypeV::Marker(Marker::IfStar), loc: star.loc }];
        let condseg = render_ops(star.cond);
        let innerseg = render_ops(star.inner);
        let restseg = render_stars(f.if_star_blocks.skip(k + 1));
        assert(starseg == else_tok + condseg + star_tok + innerseg + restseg);
        let whole = starseg + elseseg + endseg;
        // `else`: open the arm's condition block.
        assert(ts[i] == whole[0]);
        assert(unit_at(ts, i) == UnitV::UMarker(Marker::Else, star.loc));
        let acc_e = IfV { else_block: Some(Seq::<OpV>::empty()), ..acc };
        assert(parse_if(ts, eof, i, op.loc, acc, state) == parse_if(
            ts,
            eof,
            i + 1,
            op.loc,
            acc_e,
            IfParseState::InElse,
        ));
        // the arm's condition block fills the open `else`.
        let cl = condseg.len() as int;
        assert(ts.subrange(i + 1, i + 1 + cl) =~= condseg) by {
            assert forall|x: int| 0 <= x < cl implies ts.subrange(i + 1, i + 1 + cl)[x]
                == condseg[x] by {
                assert(ts[i + 1 + x] == whole[1 + x]);
                assert(whole[1 + x] == condseg[x]);
            }
        }
        lemma_render_if_ctx(ts, eof, i + 1, op.loc, acc_e, IfParseState::InElse, star.cond);
        lemma_fold_else(acc_e, star.cond);
        assert(Seq::<OpV>::empty() + star.cond =~= star.cond);
        let acc_c = if_append_all(acc_e, IfParseState::InElse, star.cond);
        assert(acc_c == (IfV { else_block: Some(star.cond), ..acc }));
        // `if*`: the condition block becomes the arm's, a fresh inner opens.
        let i2 = i + 1 + cl;
        assert(ts[i2] == whole[1 + cl]);
        assert(whole[1 + cl] == star_tok[0]);
        assert(unit_at(ts, i2) == UnitV::UMarker(Marker::IfStar, star.loc));
        let acc_s = IfV {
            if_star_blocks: acc_c.if_star_blocks.push(
                StarV { loc: star.loc, cond: star.cond, inner: Seq::empty() },
            ),
            else_block: None,
            ..acc_c
        };
        assert(parse_if(ts, eof, i2, op.loc, acc_c, IfParseState::InElse) == parse_if(
            ts,
            eof,
            i2 + 1,
            op.loc,
            acc_s,
            IfParseState::InIfStar,
        ));
        // the arm's body fills the open `if*` arm.
        let il = innerseg.len() as int;
        assert(ts.subrange(i2 + 1, i2 + 1 + il) =~= innerseg) by {
            assert forall|x: int| 0 <= x < il implies ts.subrange(i2 + 1, i2 + 1 + il)[x]
                == innerseg[x] by {
                assert(ts[i2 + 1 + x] == whole[1 + cl + 1 + x]);
                assert(whole[1 + cl + 1 + x] == innerseg[x]);
            }
        }
        lemma_render_if_ctx(
            ts,
            eof,
            i2 + 1,
            op.loc,
            acc_s,
            IfParseState::InIfStar,
            star.inner,
        );
        lemma_fold_star(acc_s, star.inner);
        let acc_i = if_append_all(acc_s, IfParseState::InIfStar, star.inner);
        assert(Seq::<OpV>::empty() + star.inner =~= star.inner);
        assert(acc_s.if_star_blocks[acc_s.if_star_blocks.len() - 1] == (StarV {
            loc: star.loc,
            cond: star.cond,
            inner: Seq::<OpV>::empty(),
        }));
        assert(acc_i.if_star_blocks =~= f.if_star_blocks.take(k).push(star));
        assert(f.if_star_blocks.take(k).push(star) =~= f.if_star_blocks.take(k + 1));
        assert(acc_i == (IfV {
            if_block: f.if_block,
            if_star_blocks: f.if_star_blocks.take(k + 1),
            else_block: None,
        }));
        // and the remaining arms follow.
        let i3 = i2 + 1 + il;
        let tl = restseg.len() as int + elseseg.len() + 1;
        assert(ts.subrange(i3, i3 + tl) =~= restseg + elseseg + endseg) by {
            assert forall|x: int| 0 <= x < tl implies ts.subrange(i3, i3 + tl)[x] == (restseg
                + elseseg + endseg)[x] by {
                assert(ts[i3 + x] == whole[1 + cl + 1 + il + x]);
                assert(whole[1 + cl + 1 + il + x] == (restseg + elseseg + endseg)[x]);
            }
        }
        lemma_render_if_stars(ts, eof, i3, op, k + 1, IfParseState::InIfStar);
    }
}

/// Parsing a rendered `if` construct, entered right after its `if` token,
/// yields exactly the construct back.
proof fn lemma_render_if_construct(ts: Seq<TokenV>, eof: LocV, i: int, op: OpV)
    requires
        op.typ is If,
        wf_op(op),
        0 <= i,
        i + render_op(op).len() <= ts.len(),
        ts.subrange(i, i + render_op(op).len()) == render_op(op),
    ensures
        parse_if(ts, eof, i + 1, op.loc, empty_if(), IfParseState::InIf) == BlockParseV::BOp(
            op,
            i + render_op(op).len(),
        ),
    decreases op, 1nat, 0nat,
{
    let f = op.typ->If_0;
    let head = seq![TokenV { typ: TokenTypeV::Marker(Marker::If), loc: op.loc }];
    let body = render_ops(f.if_block);
    let starseg = render_stars(f.if_star_blocks);
    let elseseg = render_else(f.else_block, op.loc);
    let endseg = seq![TokenV { typ: TokenTypeV::Marker(Marker::End), loc: op.loc }];
    let seg = render_op(op);
    assert(seg == head + body + starseg + elseseg + endseg);
    lemma_segment(ts, i, seg);
    // the `if` block fills the accumulator's own block.
    let bl = body.len() as int;
    assert(ts.subrange(i + 1, i + 1 + bl) =~= body) by {
        assert forall|x: int| 0 <= x < bl implies ts.subrange(i + 1, i + 1 + bl)[x] == body[x] by {
            assert(ts[i + 1 + x] == seg[1 + x]);
            assert(seg[1 + x] == body[x]);
        }
    }
    assert(wf_ops(f.if_block));
    lemma_render_if_ctx(ts, eof, i + 1, op.loc, empty_if(), IfParseState::InIf, f.if_block);
    lemma_fold_if(empty_if(), f.if_block);
    let acc1 = if_append_all(empty_if(), IfParseState::InIf, f.if_block);
    assert(Seq::<OpV>::empty() + f.if_block =~= f.if_block);
    assert(f.if_star_blocks.take(0) =~= Seq::<StarV>::empty());
    assert(acc1 == (IfV {
        if_block: f.if_block,
        if_star_blocks: f.if_star_blocks.take(0),
        else_block: None,
    }));
    // then the arms, the final `else` and the `end`.
    let i2 = i + 1 + bl;
    let tl = starseg.len() as int + elseseg.len() + 1;
    assert(f.if_star_blocks.skip(0) =~= f.if_star_blocks);
    assert(ts.subrange(i2, i2 + tl) =~= starseg + elseseg + endseg) by {
        assert forall|x: int| 0 <= x < tl implies ts.subrange(i2, i2 + tl)[x] == (starseg + elseseg
            + endseg)[x] by {
            assert(ts[i2 + x] == seg[1 + bl + x]);
            assert(seg[1 + bl + x] == (starseg + elseseg + endseg)[x]);
        }
    }
    lemma_render_if_stars(ts, eof, i2, op, 0, IfParseState::InIf);
}

/// Parsing a rendered `while` construct, entered right after its `while`
/// token, yields exactly the construct back.
proof fn lemma_render_while_construct(ts: Seq<TokenV>, eof: LocV, i: int, op: OpV)
    requires
        op.typ is While,
        wf_op(op),
        0 <= i,
        i + render_op(op).len() <= ts.len(),
        ts.subrange(i, i + render_op(op).len()) == render_op(op),
    ensures
        parse_while(ts, eof, i + 1, op.loc, empty_while(), WhileParseState::InCond)
            == BlockParseV::BOp(op, i + render_op(op).len()),
    decreases op, 1nat, 0nat,
{
    let w = op.typ->While_0;
    let head = seq![TokenV { typ: TokenTypeV::Marker(Marker::While), loc: op.loc }];
    let condseg = render_ops(w.cond_block);
    let do_tok = seq![TokenV { typ: TokenTypeV::Marker(Marker::Do), loc: w.do_loc->0 }];
    let bodyseg = render_ops(w.do_block);
    let endseg = seq![TokenV { typ: TokenTypeV::Marker(Marker::End), loc: op.loc }];
    let seg = render_op(op);
    assert(seg == head + condseg + do_tok + bodyseg + endseg);
    lemma_segment(ts, i, seg);
    // the condition block.
    let cl = condseg.len() as int;
    assert(ts.subrange(i + 1, i + 1 + cl) =~= condseg) by {
        assert forall|x: int| 0 <= x < cl implies ts.subrange(i + 1, i + 1 + cl)[x]
            == condseg[x] by {
            assert(ts[i + 1 + x] == seg[1 + x]);
            assert(seg[1 + x] == condseg[x]);
        }
    }
    assert(wf_ops(w.cond_block));
    lemma_render_while_ctx(
        ts,
        eof,
        i + 1,
        op.loc,
        empty_while(),
        WhileParseState::InCond,
        w.cond_block,
    );
    lemma_fold_while(empty_while(), WhileParseState::InCond, w.cond_block);
    let acc1 = while_append_all(empty_while(), WhileParseState::InCond, w.cond_block);
    assert(Seq::<OpV>::empty() + w.cond_block =~= w.cond_block);
    // the `do` marker records its own location.
    let i2 = i + 1 + cl;
    assert(ts[i2] == seg[1 + cl]);
    assert(seg[1 + cl] == do_tok[0]);
    assert(unit_at(ts, i2) == UnitV::UMarker(Marker::Do, w.do_loc->0));
    let acc2 = WhileV { do_loc: Some(w.do_loc->0), ..acc1 };
    assert(w.do_loc is Some);
    assert(acc2.do_loc == w.do_loc);
    // the body block.
    let il = bodyseg.len() as int;
    assert(ts.subrange(i2 + 1, i2 + 1 + il) =~= bodyseg) by {
        assert forall|x: int| 0 <= x < il implies ts.subrange(i2 + 1, i2 + 1 + il)[x]
            == bodyseg[x] by {
            assert(ts[i2 + 1 + x] == seg[1 + cl + 1 + x]);
            assert(seg[1 + cl + 1 + x] == bodyseg[x]);
        }
    }
    assert(wf_ops(w.do_block));
    lemma_render_while_ctx(ts, eof, i2 + 1, op.loc, acc2, WhileParseState::InDo, w.do_block);
    lemma_fold_while(acc2, WhileParseState::InDo, w.do_block);
    let acc3 = while_append_all(acc2, WhileParseState::InDo, w.do_block);
    assert(Seq::<OpV>::empty() + w.do_block =~= w.do_block);
    assert(acc3 == w);
    // the `end`.
    let i3 = i2 + 1 + il;
    assert(ts[i3] == seg[1 + cl + 1 + il]);
    assert(seg[1 + cl + 1 + il] == endseg[0]);
    assert(unit_at(ts, i3) == UnitV::UMarker(Marker::End, op.loc));
    assert(parse_while(ts, eof, i3, op.loc, acc3, WhileParseState::InDo) == BlockParseV::BOp(
        OpV { typ: OpTypeV::While(acc3), loc: op.loc },
        i3 + 1,
    ));
}

/// At the root, a rendered operation sequence that fills the rest of the
/// stream parses back to exactly that sequence.
proof fn lemma_render_root(ts: Seq<TokenV>, eof: LocV, i: int, ops: Seq<OpV>)
    requires
        0 <= i,
        i + render_ops(ops).len() == ts.len(),
        ts.subrange(i, i + render_ops(ops).len()) == render_ops(ops),
        wf_ops(ops),
    ensures
        parse_root(ts, eof, i) == Ok::<Seq<OpV>, ErrV>(ops),
    decreases ops, 2nat, 0nat,
{
    if ops.len() == 0 {
        assert(render_ops(ops).len() == 0);
        assert(unit_at(ts, i) == UnitV::UEnd);
        assert(Seq::<OpV>::empty() =~= ops);
    } else {
        let op0 = ops[0];
        let seg0 = render_op(op0);
        let rest = render_ops(ops.drop_first());
        assert(render_ops(ops) == seg0 + rest);
        lemma_segment_split(ts, i, seg0, rest);
        lemma_segment(ts, i, seg0);
        lemma_wf_ops_drop_first(ops);
        assert(wf_op(op0));
        match op0.typ {
            OpTypeV::PushInt(v) => {
                assert(ts[i] == seg0[0]);
                assert(unit_at(ts, i) == UnitV::UInt(v, op0.loc));
                lemma_render_root(ts, eof, i + 1, ops.drop_first());
                assert(seq![op0] + ops.drop_first() =~= ops);
            },
            OpTypeV::Intrinsic(intr) => {
                assert(ts[i] == seg0[0]);
                lemma_intrinsic_bytes_inverse(intr);
                assert(unit_at(ts, i) == UnitV::UIntrinsic(intr, op0.loc));
                lemma_render_root(ts, eof, i + 1, ops.drop_first());
                assert(seq![op0] + ops.drop_first() =~= ops);
            },
            OpTypeV::If(f) => {
                assert(ts[i] == seg0[0]);
                assert(unit_at(ts, i) == UnitV::UMarker(Marker::If, op0.loc));
                lemma_render_if_construct(ts, eof, i, op0);
                let j = i + seg0.len();
                assert(adv(i, j) == j);
                lemma_render_root(ts, eof, j, ops.drop_first());
                assert(seq![op0] + ops.drop_first() =~= ops);
            },
            OpTypeV::While(w) => {
                assert(ts[i] == seg0[0]);
                assert(unit_at(ts, i) == UnitV::UMarker(Marker::While, op0.loc));
                lemma_render_while_construct(ts, eof, i, op0);
                let j = i + seg0.len();
                assert(adv(i, j) == j);
                lemma_render_root(ts, eof, j, ops.drop_first());
                assert(seq![op0] + ops.drop_first() =~= ops);
            },
        }
    }
}

/// Law: re-parsing the token dump of a structurally valid operation tree
/// reproduces exactly the same tree — locations the dump carries included
/// — whatever end-of-source location the re-parse runs under.
pub proof fn lemma_render_parse_round_trip(ops: Seq<OpV>, eof: LocV)
    requires
        wf_ops(ops),
    ensures
        parse_root(render_ops(ops), eof, 0) == Ok::<Seq<OpV>, ErrV>(ops),
{
    let ts = render_ops(ops);
    assert(ts.subrange(0, ts.len() as int) =~= ts);
    lemma_render_root(ts, eof, 0, ops);
}


} // verus!
