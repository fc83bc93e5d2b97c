use vstd::prelude::*;

use crate::program::{FileLocation, LocV};

verus! {

/// A built-in stack operation, identified by a fixed keyword or symbol.
#[derive(Clone, Copy, Debug, PartialEq, Eq, Structural)]
pub enum Intrinsic {
    Dup,
    Swap,
    Drop,
    Print,
    Over,
    Rot,
    Plus,
    Subtract,
    Multiply,
    DivMod,
}

/// The bytes an intrinsic is spelled with in source text, as ASCII codes
/// (`dup`, `swap`, `drop`, `print`, `over`, `rot`, `+`, `-`, `*`, `divmod`).
pub open spec fn intrinsic_bytes(i: Intrinsic) -> Seq<u8> {
    match i {
        Intrinsic::Dup => seq![100u8, 117u8, 112u8],
        Intrinsic::Swap => seq![115u8, 119u8, 97u8, 112u8],
        Intrinsic::Drop => seq![100u8, 114u8, 111u8, 112u8],
        Intrinsic::Print => seq![112u8, 114u8, 105u8, 110u8, 116u8],
        Intrinsic::Over => seq![111u8, 118u8, 101u8, 114u8],
        Intrinsic::Rot => seq![114u8, 111u8, 116u8],
        Intrinsic::Plus => seq![43u8],
        Intrinsic::Subtract => seq![45u8],
        Intrinsic::Multiply => seq![42u8],
        Intrinsic::DivMod => seq![100u8, 105u8, 118u8, 109u8, 111u8, 100u8],
    }
}

/// The intrinsic spelled by `text`, if any.
pub open spec fn intrinsic_of(text: Seq<u8>) -> Option<Intrinsic> {
    if text == intrinsic_bytes(Intrinsic::Dup) {
        Some(Intrinsic::Dup)
    } else if text == intrinsic_bytes(Intrinsic::Swap) {
        Some(Intrinsic::Swap)
    } else if text == intrinsic_bytes(Intrinsic::Drop) {
        Some(Intrinsic::Drop)
    } else if text == intrinsic_bytes(Intrinsic::Print) {
        Some(Intrinsic::Print)
    } else if text == intrinsic_bytes(Intrinsic::Over) {
        Some(Intrinsic::Over)
    } else if text == intrinsic_bytes(Intrinsic::Rot) {
        Some(Intrinsic::Rot)
    } else if text == intrinsic_bytes(Intrinsic::Plus) {
        Some(Intrinsic::Plus)
    } else if text == intrinsic_bytes(Intrinsic::Subtract) {
        Some(Intrinsic::Subtract)
    } else if text == intrinsic_bytes(Intrinsic::Multiply) {
        Some(Intrinsic::Multiply)
    } else if text == intrinsic_bytes(Intrinsic::DivMod) {
        Some(Intrinsic::DivMod)
    } else {
        None
    }
}

impl Intrinsic {
    /// Resolves word text to an intrinsic, by exact spelling.
    pub fn from_bytes(text: &Vec<u8>) -> (r: Option<Intrinsic>)
        ensures
            r == intrinsic_of(text@),
    {
        let n = text.len();
        let r = if n == 3 && text[0] == 100u8 && text[1] == 117u8 && text[2] == 112u8 {
            Some(Intrinsic::Dup)
        } else if n == 4 && text[0] == 115u8 && text[1] == 119u8 && text[2] == 97u8 && text[3]
            == 112u8 {
            Some(Intrinsic::Swap)
        } else if n == 4 && text[0] == 100u8 && text[1] == 114u8 && text[2] == 111u8 && text[3]
            == 112u8 {
            Some(Intrinsic::Drop)
        } else if n == 5 && text[0] == 112u8 && text[1] == 114u8 && text[2] == 105u8 && text[3]
            == 110u8 && text[4] == 116u8 {
            Some(Intrinsic::Print)
        } else if n == 4 && text[0] == 111u8 && text[1] == 118u8 && text[2] == 101u8 && text[3]
            == 114u8 {
            Some(Intrinsic::Over)
        } else if n == 3 && text[0] == 114u8 && text[1] == 111u8 && text[2] == 116u8 {
            Some(Intrinsic::Rot)
        } else if n == 1 && text[0] == 43u8 {
            Some(Intrinsic::Plus)
        } else if n == 1 && text[0] == 45u8 {
            Some(Intrinsic::Subtract)
        } else if n == 1 && text[0] == 42u8 {
            Some(Intrinsic::Multiply)
        } else if n == 6 && text[0] == 100u8 && text[1] == 105u8 && text[2] == 118u8 && text[3]
            == 109u8 && text[4] == 111u8 && text[5] == 100u8 {
            Some(Intrinsic::DivMod)
        } else {
            None
        };
        proof {
            if r is Some {
                assert(text@ =~= intrinsic_bytes(r->0));
            } else {
                assert(text@ != intrinsic_bytes(Intrinsic::Dup));
                assert(text@ != intrinsic_bytes(Intrinsic::Swap));
                assert(text@ != intrinsic_bytes(Intrinsic::Drop));
                assert(text@ != intrinsic_bytes(Intrinsic::Print));
                assert(text@ != intrinsic_bytes(Intrinsic::Over));
                assert(text@ != intrinsic_bytes(Intrinsic::Rot));
                assert(text@ != intrinsic_bytes(Intrinsic::Plus));
                assert(text@ != intrinsic_bytes(Intrinsic::Subtract));
                assert(text@ != intrinsic_bytes(Intrinsic::Multiply));
                assert(text@ != intrinsic_bytes(Intrinsic::DivMod));
            }
        }
        r
    }

    /// The spelling of an intrinsic, for display.
    pub fn as_str(&self) -> (r: &'static str)
        ensures
            r@ == intrinsic_chars(*self),
    {
        match self {
            Intrinsic::Dup => "dup",
            Intrinsic::Swap => "swap",
            Intrinsic::Drop => "drop",
            Intrinsic::Print => "print",
            Intrinsic::Over => "over",
            Intrinsic::Rot => "rot",
            Intrinsic::Plus => "+",
            Intrinsic::Subtract => "-",
            Intrinsic::Multiply => "*",
            Intrinsic::DivMod => "divmod",
        }
    }
}

/// The characters an intrinsic is spelled with, for display.
pub open spec fn intrinsic_chars(i: Intrinsic) -> Seq<char> {
    match i {
        Intrinsic::Dup => "dup"@,
        Intrinsic::Swap => "swap"@,
        Intrinsic::Drop => "drop"@,
        Intrinsic::Print => "print"@,
        Intrinsic::Over => "over"@,
        Intrinsic::Rot => "rot"@,
        Intrinsic::Plus => "+"@,
        Intrinsic::Subtract => "-"@,
        Intrinsic::Multiply => "*"@,
        Intrinsic::DivMod => "divmod"@,
    }
}

/// An ordered sequence of operations, executed front to back.
#[derive(Debug)]
pub struct OpBlock(pub Vec<Op>);

/// A parsed, structurally validated unit of execution.
#[derive(Debug)]
pub struct Op {
    pub typ: OpType,
    pub loc: FileLocation,
}

#[derive(Debug)]
pub enum OpType {
    PushInt(u64),
    Intrinsic(Intrinsic),
    If(If),
    While(While),
}

/// One `else`/`if*` arm of an `if` construct: its `if*` location, the
/// condition block that preceded the `if*`, and the arm's body.
#[derive(Debug)]
pub struct IfStarBlock {
    pub loc: FileLocation,
    pub cond: OpBlock,
    pub inner: OpBlock,
}

/// A structured `if ... [else ... if* ...]* [else ...] end` construct.
#[derive(Debug)]
pub struct If {
    pub if_block: OpBlock,
    pub if_star_blocks: Vec<IfStarBlock>,
    pub else_block: Option<OpBlock>,
}

impl If {
    pub fn new() -> (r: Self)
        ensures
            view_if(r) == (IfV {
                if_block: Seq::<OpV>::empty(),
                if_star_blocks: Seq::<StarV>::empty(),
                else_block: None,
            }),
    {
        let r = If { if_block: OpBlock::new(), if_star_blocks: Vec::new(), else_block: None };
        proof {
            assert(view_stars(r.if_star_blocks@) =~= Seq::<StarV>::empty());
        }
        r
    }
}

/// A structured `while ... do ... end` construct. `do_loc` is populated if
/// and only if the `while` block reached its `do` marker.
#[derive(Debug)]
pub struct While {
    pub cond_block: OpBlock,
    pub do_loc: Option<FileLocation>,
    pub do_block: OpBlock,
}

impl While {
    pub fn new() -> (r: Self)
        ensures
            view_while(r) == (WhileV {
                cond_block: Seq::<OpV>::empty(),
                do_loc: None,
                do_block: Seq::<OpV>::empty(),
            }),
    {
        While { cond_block: OpBlock::new(), do_loc: None, do_block: OpBlock::new() }
    }
}

/// Mathematical value of an [`Op`].
pub struct OpV {
    pub typ: OpTypeV,
    pub loc: LocV,
}

pub enum OpTypeV {
    PushInt(u64),
    Intrinsic(Intrinsic),
    If(IfV),
    While(WhileV),
}

pub struct StarV {
    pub loc: LocV,
    pub cond: Seq<OpV>,
    pub inner: Seq<OpV>,
}

pub struct IfV {
    pub if_block: Seq<OpV>,
    pub if_star_blocks: Seq<StarV>,
    pub else_block: Option<Seq<OpV>>,
}

pub struct WhileV {
    pub cond_block: Seq<OpV>,
    pub do_loc: Option<LocV>,
    pub do_block: Seq<OpV>,
}

pub open spec fn view_op(op: Op) -> OpV
    decreases op,
{
    OpV { typ: view_op_type(op.typ), loc: op.loc@ }
}

pub open spec fn view_op_type(t: OpType) -> OpTypeV
    decreases t,
{
    match t {
        OpType::PushInt(v) => OpTypeV::PushInt(v),
        OpType::Intrinsic(i) => OpTypeV::Intrinsic(i),
        OpType::If(f) => OpTypeV::If(view_if(f)),
        OpType::While(w) => OpTypeV::While(view_while(w)),
    }
}

pub open spec fn view_if(f: If) -> IfV
    decreases f,
{
    IfV {
        if_block: view_block(f.if_block),
        if_star_blocks: view_stars(f.if_star_blocks@),
        else_block: match f.else_block {
            Some(b) => Some(view_block(b)),
            None => None,
        },
    }
}

pub open spec fn view_while(w: While) -> WhileV
    decreases w,
{
    WhileV {
        cond_block: view_block(w.cond_block),
        do_loc: match w.do_loc {
            Some(l) => Some(l@),
            None => None,
        },
        do_block: view_block(w.do_block),
    }
}

pub open spec fn view_star(s: IfStarBlock) -> StarV
    decreases s,
{
    StarV { loc: s.loc@, cond: view_block(s.cond), inner: view_block(s.inner) }
}

pub open spec fn view_stars(s: Seq<IfStarBlock>) -> Seq<StarV>
    decreases s,
{
    if s.len() == 0 {
        Seq::empty()
    } else {
        view_stars(s.drop_last()).push(view_star(s.last()))
    }
}

pub open spec fn view_block(b: OpBlock) -> Seq<OpV>
    decreases b,
{
    view_ops(b.0@)
}

pub open spec fn view_ops(s: Seq<Op>) -> Seq<OpV>
    decreases s,
{
    if s.len() == 0 {
        Seq::empty()
    } else {
        view_ops(s.drop_last()).push(view_op(s.last()))
    }
}

/// The view of a sequence of operations has the same length and views each
/// element in place.
pub proof fn lemma_view_ops_index(s: Seq<Op>)
    ensures
        view_ops(s).len() == s.len(),
        forall|i: int| 0 <= i < s.len() ==> view_ops(s)[i] == view_op(#[trigger] s[i]),
    decreases s.len(),
{
    if s.len() > 0 {
        lemma_view_ops_index(s.drop_last());
        assert forall|i: int| 0 <= i < s.len() implies view_ops(s)[i] == view_op(#[trigger] s[i])
            by {
            if i < s.len() - 1 {
                assert(s.drop_last()[i] == s[i]);
            }
        }
    }
}

/// The view of a sequence of `if*` arms has the same length and views each
/// element in place.
pub proof fn lemma_view_stars_index(s: Seq<IfStarBlock>)
    ensures
        view_stars(s).len() == s.len(),
        forall|i: int| 0 <= i < s.len() ==> view_stars(s)[i] == view_star(#[trigger] s[i]),
    decreases s.len(),
{
    if s.len() > 0 {
        lemma_view_stars_index(s.drop_last());
        assert forall|i: int| 0 <= i < s.len() implies view_stars(s)[i] == view_star(
            #[trigger] s[i],
        ) by {
            if i < s.len() - 1 {
                assert(s.drop_last()[i] == s[i]);
            }
        }
    }
}

impl OpBlock {
    pub fn new() -> (r: Self)
        ensures
            view_block(r) == Seq::<OpV>::empty(),
    {
        OpBlock(Vec::new())
    }

    /// Appends an operation at the end of the block.
    pub fn push(&mut self, op: Op)
        ensures
            view_block(*final(self)) == view_block(*old(self)).push(view_op(op)),
    {
        proof {
            let s = self.0@;
            assert(s.push(op).drop_last() =~= s);
        }
        self.0.push(op);
    }

    /// The operations of the block, in execution order.
    pub fn iter(&self) -> (r: &Vec<Op>)
        ensures
            r@ == self.0@,
            view_ops(r@) == view_block(*self),
    {
        &self.0
    }

}

/// Structural soundness of a fully parsed operation: every `while` in it has
/// reached its `do` marker.
pub open spec fn wf_op(op: OpV) -> bool
    decreases op,
{
    wf_op_type(op.typ)
}

pub open spec fn wf_op_type(t: OpTypeV) -> bool
    decreases t,
{
    match t {
        OpTypeV::PushInt(_) => true,
        OpTypeV::Intrinsic(_) => true,
        OpTypeV::If(f) => wf_ops(f.if_block) && wf_stars(f.if_star_blocks) && match f.else_block {
            Some(b) => wf_ops(b),
            None => true,
        },
        OpTypeV::While(w) => w.do_loc is Some && wf_ops(w.cond_block) && wf_ops(w.do_block),
    }
}

pub open spec fn wf_star(star: StarV) -> bool
    decreases star,
{
    wf_ops(star.cond) && wf_ops(star.inner)
}

pub open spec fn wf_stars(s: Seq<StarV>) -> bool
    decreases s,
{
    forall|i: int| 0 <= i < s.len() ==> wf_star(#[trigger] s[i])
}

pub open spec fn wf_ops(s: Seq<OpV>) -> bool
    decreases s,
{
    forall|i: int| 0 <= i < s.len() ==> wf_op(#[trigger] s[i])
}

pub proof fn lemma_wf_ops_push(s: Seq<OpV>, op: OpV)
    requires
        wf_ops(s),
        wf_op(op),
    ensures
        wf_ops(s.push(op)),
{
    assert forall|i: int| 0 <= i < s.push(op).len() implies wf_op(#[trigger] s.push(op)[i]) by {
        if i < s.len() {
            assert(s.push(op)[i] == s[i]);
        } else {
            assert(s.push(op)[i] == op);
        }
    }
}

pub proof fn lemma_wf_stars_push(s: Seq<StarV>, star: StarV)
    requires
        wf_stars(s),
        wf_star(star),
    ensures
        wf_stars(s.push(star)),
{
    assert forall|i: int| 0 <= i < s.push(star).len() implies wf_star(#[trigger] s.push(star)[i])
        by {
        if i < s.len() {
            assert(s.push(star)[i] == s[i]);
        } else {
            assert(s.push(star)[i] == star);
        }
    }
}

} // verus!
