use vstd::prelude::*;

use crate::error::Error;
use crate::op::{view_block, wf_ops, OpBlock, OpV};

verus! {

/// A 1-based line/column pair inside a source file.
#[derive(Clone, Copy, Debug, PartialEq, Eq, Structural)]
pub struct FilePosition {
    pub line: usize,
    pub col: usize,
}

/// A source file plus, once the first line has been read, a position in it.
///
/// Locations are captured once and cloned into tokens, operations and
/// diagnostics; they serve display only and are never compared to decide
/// behaviour.
#[derive(Debug)]
pub struct FileLocation {
    pub path: String,
    pub pos: Option<FilePosition>,
}

/// Mathematical value of a [`FileLocation`].
pub struct LocV {
    pub path: Seq<char>,
    pub pos: Option<FilePosition>,
}

impl View for FileLocation {
    type V = LocV;

    open spec fn view(&self) -> LocV {
        LocV { path: self.path@, pos: self.pos }
    }
}

impl Clone for FileLocation {
    fn clone(&self) -> (r: Self)
        ensures
            r@ == self@,
    {
        FileLocation { path: self.path.clone(), pos: self.pos }
    }
}

impl FileLocation {
    /// A location that names the file but no position yet.
    pub fn from_path(path: String) -> (r: Self)
        ensures
            r@.path == path@,
            r@.pos is None,
    {
        FileLocation { path, pos: None }
    }
}

/// A parsed source program: one root operation block. Once constructed it
/// is structurally valid — every control marker has been consumed into a
/// complete `if` or `while` construct.
pub struct Program {
    root_block: OpBlock,
}

impl Program {
    /// Structural soundness, established by the parser: every `while` in
    /// the tree has reached its `do` marker.
    #[verifier::type_invariant]
    spec fn wf(self) -> bool {
        wf_ops(view_block(self.root_block))
    }

    /// The program's operations, as mathematical values.
    pub closed spec fn spec_root(self) -> Seq<OpV> {
        view_block(self.root_block)
    }

    pub(crate) fn from_root(root_block: OpBlock) -> (r: Program)
        requires
            wf_ops(view_block(root_block)),
        ensures
            r.spec_root() == view_block(root_block),
    {
        Program { root_block }
    }

    /// The root block of the program.
    pub fn root_block(&self) -> (r: &OpBlock)
        ensures
            view_block(*r) == self.spec_root(),
            wf_ops(self.spec_root()),
    {
        proof {
            use_type_invariant(self);
        }
        &self.root_block
    }

    /// Lexes and parses a source file handed over as its raw lines, exactly
    /// as read from the file (line terminators included). Returns the
    /// parsed program, or the first parse fault. The length bound on each
    /// line is a machine limit: a column number must fit in `usize`.
    pub fn from_lines(path: String, lines: Vec<Vec<u8>>) -> (r: Result<Program, Error>)
        requires
            forall|i: int| 0 <= i < lines@.len() ==> (#[trigger] lines@[i])@.len() < usize::MAX,
        ensures
            match crate::parse::parse_result(
                crate::lex::tokenize_spec(path@, crate::lex::view_lines(lines@)),
            ) {
                Ok(opsv) => r matches Ok(p) && p.spec_root() == opsv,
                Err(e) => r matches Err(err) && err@ == e,
            },
    {
        let (tokens, eof_loc) = crate::lex::tokenize(path, &lines);
        match crate::parse::parse_tokens(tokens, eof_loc) {
            Ok(root) => Ok(Program::from_root(root)),
            Err(e) => Err(e),
        }
    }
}

} // verus!
