//! Opcodes, instructions, and the loader that builds a program from text.
//!
//! A program is built once, before it runs.  Building maps each statement's
//! first token onto one of the fifteen opcodes and keeps the other tokens
//! as raw operands: whether an operand is a literal or a variable name is
//! decided only when an instruction reads it, and how many operands an
//! instruction needs is not checked here.
use vstd::prelude::*;
use vstd::string::*;
use crate::fault::{ErrorKind, Fault};
use crate::text::{same_text, split_statements, statements, tokenise_lines, tokens};

verus! {

/// The instruction set.
#[derive(Clone, Copy, Debug, PartialEq, Eq, Structural)]
pub enum Opcode {
    /// `iadd a b dest`: sum.
    Iadd,
    /// `out name`: emit a stored value.
    Out,
    /// `imul a b dest`: product.
    Imul,
    /// `isub a b dest`: difference.
    Isub,
    /// `idiv a b dest`: quotient rounded toward zero.
    Idiv,
    /// `set src dest`: store a value.
    Assign,
    /// `equ a b dest`: `1` if equal, else `0`.
    Equ,
    /// `free name`: remove a variable.
    Free,
    /// `le a b dest`: `1` if less, else `0`.
    Le,
    /// `gr a b dest`: `1` if greater, else `0`.
    Gr,
    /// `leq a b dest`: `1` if less or equal, else `0`.
    Leq,
    /// `geq a b dest`: `1` if greater or equal, else `0`.
    Geq,
    /// `jnz cond offset`: jump if the condition is `1`.
    Jnz,
    /// `jmp offset`: jump.
    Jmp,
    /// `//`: does nothing.
    Comment,
}

/// The token that spells an opcode.
pub open spec fn keyword(op: Opcode) -> Seq<char> {
    match op {
        Opcode::Iadd => "iadd"@,
        Opcode::Out => "out"@,
        Opcode::Imul => "imul"@,
        Opcode::Isub => "isub"@,
        Opcode::Idiv => "idiv"@,
        Opcode::Assign => "set"@,
        Opcode::Equ => "equ"@,
        Opcode::Free => "free"@,
        Opcode::Le => "le"@,
        Opcode::Gr => "gr"@,
        Opcode::Leq => "leq"@,
        Opcode::Geq => "geq"@,
        Opcode::Jnz => "jnz"@,
        Opcode::Jmp => "jmp"@,
        Opcode::Comment => "//"@,
    }
}

/// The opcode that `token` spells, if it spells one.
pub open spec fn opcode_of(token: Seq<char>) -> Option<Opcode> {
    if exists|op: Opcode| token == #[trigger] keyword(op) {
        Some(choose|op: Opcode| token == #[trigger] keyword(op))
    } else {
        None
    }
}

/// No two opcodes are spelled alike, so the opcode of a keyword is the one
/// that the keyword spells.
pub proof fn lemma_keywords_differ(a: Opcode, b: Opcode)
    ensures
        keyword(a) == keyword(b) ==> a == b,
        opcode_of(keyword(a)) == Some(a),
{
    reveal_strlit("iadd");
    reveal_strlit("out");
    reveal_strlit("imul");
    reveal_strlit("isub");
    reveal_strlit("idiv");
    reveal_strlit("set");
    reveal_strlit("equ");
    reveal_strlit("free");
    reveal_strlit("le");
    reveal_strlit("gr");
    reveal_strlit("leq");
    reveal_strlit("geq");
    reveal_strlit("jnz");
    reveal_strlit("jmp");
    reveal_strlit("//");
    assert forall|x: Opcode, y: Opcode| keyword(x) == keyword(y) implies x == y by {
        if x != y {
            let p = keyword(x);
            let q = keyword(y);
            assert(p.len() != q.len() || p[0] != q[0] || p[1] != q[1] || p[2] != q[2] || p[3]
                != q[3]);
        }
    }
    let found = choose|op: Opcode| keyword(a) == #[trigger] keyword(op);
    assert(keyword(a) == keyword(found));
}

impl Opcode {
    /// Whether the opcode computes a value from two sources and stores it.
    pub open spec fn is_binary(self) -> bool {
        match self {
            Opcode::Iadd
            | Opcode::Imul
            | Opcode::Isub
            | Opcode::Idiv
            | Opcode::Equ
            | Opcode::Le
            | Opcode::Gr
            | Opcode::Leq
            | Opcode::Geq => true,
            _ => false,
        }
    }

    /// The token that spells this opcode.
    pub fn as_str(&self) -> (word: &'static str)
        ensures
            word@ == keyword(*self),
    {
        match self {
            Opcode::Iadd => "iadd",
            Opcode::Out => "out",
            Opcode::Imul => "imul",
            Opcode::Isub => "isub",
            Opcode::Idiv => "idiv",
            Opcode::Assign => "set",
            Opcode::Equ => "equ",
            Opcode::Free => "free",
            Opcode::Le => "le",
            Opcode::Gr => "gr",
            Opcode::Leq => "leq",
            Opcode::Geq => "geq",
            Opcode::Jnz => "jnz",
            Opcode::Jmp => "jmp",
            Opcode::Comment => "//",
        }
    }

    /// Reads a token as an opcode.  `None` for a token that spells none:
    /// the match is exact, with no trimming and no folding of case.
    pub fn parse(token: &str) -> (r: Option<Opcode>)
        ensures
            r == opcode_of(token@),
    {
        let found: Option<Opcode> = if same_text(token, "iadd") {
            Some(Opcode::Iadd)
        } else if same_text(token, "out") {
            Some(Opcode::Out)
        } else if same_text(token, "imul") {
            Some(Opcode::Imul)
        } else if same_text(token, "isub") {
            Some(Opcode::Isub)
        } else if same_text(token, "idiv") {
            Some(Opcode::Idiv)
        } else if same_text(token, "set") {
            Some(Opcode::Assign)
        } else if same_text(token, "equ") {
            Some(Opcode::Equ)
        } else if same_text(token, "free") {
            Some(Opcode::Free)
        } else if same_text(token, "le") {
            Some(Opcode::Le)
        } else if same_text(token, "gr") {
            Some(Opcode::Gr)
        } else if same_text(token, "leq") {
            Some(Opcode::Leq)
        } else if same_text(token, "geq") {
            Some(Opcode::Geq)
        } else if same_text(token, "jnz") {
            Some(Opcode::Jnz)
        } else if same_text(token, "jmp") {
            Some(Opcode::Jmp)
        } else if same_text(token, "//") {
            Some(Opcode::Comment)
        } else {
            None
        };
        proof {
            match found {
                Some(op) => {
                    let other = choose|x: Opcode| token@ == #[trigger] keyword(x);
                    lemma_keywords_differ(other, op);
                },
                None => {
                    assert forall|op: Opcode| token@ != #[trigger] keyword(op) by {}
                },
            }
        }
        found
    }
}

/// One instruction of a program: its opcode and its operand tokens as written.
#[derive(Clone, Debug, PartialEq, Eq)]
pub struct Instruction {
    pub opcode: Opcode,
    pub operands: Vec<String>,
}

/// An instruction as a value: the model of [`Instruction`].
pub struct Line {
    pub opcode: Opcode,
    pub operands: Seq<Seq<char>>,
}

impl View for Instruction {
    type V = Line;

    open spec fn view(&self) -> Line {
        Line { opcode: self.opcode, operands: self.operands.deep_view() }
    }
}

impl DeepView for Instruction {
    type V = Line;

    open spec fn deep_view(&self) -> Line {
        self.view()
    }
}

/// The instruction that a statement's tokens make: the first token is the
/// opcode, the others are the operands.  `None` when there is no first
/// token or it spells no opcode.
pub open spec fn instruction_of(tokens: Seq<Seq<char>>) -> Option<Line> {
    if tokens.len() == 0 {
        None
    } else {
        match opcode_of(tokens[0]) {
            Some(opcode) => Some(Line { opcode, operands: tokens.skip(1) }),
            None => None,
        }
    }
}

/// Statement `i` is the first that makes no instruction.
pub open spec fn is_first_unknown(lines: Seq<Seq<Seq<char>>>, i: int) -> bool {
    &&& 0 <= i < lines.len()
    &&& instruction_of(lines[i]) is None
    &&& forall|j: int| 0 <= j < i ==> instruction_of(#[trigger] lines[j]) is Some
}

/// The program that tokenised statements make: one instruction for each
/// statement, in order.  If some statement makes none, the result is an
/// [`ErrorKind::UnknownOpcode`] at the first such statement.
pub open spec fn assembled(lines: Seq<Seq<Seq<char>>>) -> Result<Seq<Line>, Fault> {
    if exists|i: int| is_first_unknown(lines, i) {
        Err(
            Fault {
                kind: ErrorKind::UnknownOpcode,
                index: (choose|i: int| is_first_unknown(lines, i)) as usize,
            },
        )
    } else {
        Ok(Seq::new(lines.len(), |i: int| instruction_of(lines[i]).unwrap()))
    }
}

/// The program that a source text holds.
pub open spec fn loaded(source: Seq<char>) -> Result<Seq<Line>, Fault> {
    assembled(tokens(statements(source)))
}

impl Instruction {
    /// Builds the instruction that a statement's tokens make.
    pub fn parse(tokens: &Vec<String>) -> (r: Option<Instruction>)
        ensures
            match r {
                Some(instruction) => instruction_of(tokens.deep_view()) == Some(instruction@),
                None => instruction_of(tokens.deep_view()) is None,
            },
    {
        if tokens.len() == 0 {
            return None;
        }
        let opcode: Opcode = match Opcode::parse(tokens[0].as_str()) {
            Some(opcode) => opcode,
            None => {
                return None;
            },
        };
        let mut operands: Vec<String> = Vec::new();
        let mut k: usize = 1;
        while k < tokens.len()
            invariant
                1 <= k <= tokens.len(),
                operands.deep_view() =~= tokens.deep_view().subrange(1, k as int),
            decreases tokens.len() - k,
        {
            let ghost before = operands.deep_view();
            operands.push(tokens[k].clone());
            assert(operands.deep_view() =~= before.push(tokens[k as int]@));
            k += 1;
        }
        assert(tokens.deep_view().subrange(1, k as int) =~= tokens.deep_view().skip(1));
        Some(Instruction { opcode, operands })
    }
}

/// Builds a program from tokenised statements.
///
/// Succeeds when every statement has a first token that spells an opcode;
/// otherwise reports the first statement that has not.
pub fn assemble(lines: &Vec<Vec<String>>) -> (r: Result<Vec<Instruction>, Fault>)
    ensures
        match r {
            Ok(program) => assembled(lines.deep_view()) == Ok::<Seq<Line>, Fault>(
                program.deep_view(),
            ),
            Err(fault) => assembled(lines.deep_view()) == Err::<Seq<Line>, Fault>(fault),
        },
{
    let ghost texts = lines.deep_view();
    let mut program: Vec<Instruction> = Vec::new();
    let mut k: usize = 0;
    while k < lines.len()
        invariant
            k <= lines.len(),
            texts == lines.deep_view(),
            program.len() == k,
            forall|j: int|
                0 <= j < k ==> instruction_of(#[trigger] texts[j]) == Some(program.deep_view()[j]),
        decreases lines.len() - k,
    {
        match Instruction::parse(&lines[k]) {
            Some(instruction) => {
                let ghost before = program.deep_view();
                program.push(instruction);
                assert(program.deep_view() =~= before.push(instruction@));
            },
            None => {
                proof {
                    assert(is_first_unknown(texts, k as int));
                    let i = choose|i: int| is_first_unknown(texts, i);
                    if i < k {
                        assert(instruction_of(texts[i]) is Some);
                    } else if i > k {
                        assert(instruction_of(texts[k as int]) is Some);
                    }
                }
                return Err(Fault { kind: ErrorKind::UnknownOpcode, index: k });
            },
        }
        k += 1;
    }
    proof {
        if exists|i: int| is_first_unknown(texts, i) {
            let i = choose|i: int| is_first_unknown(texts, i);
            assert(instruction_of(texts[i]) is Some);
        }
        assert(program.deep_view() =~= Seq::new(
            texts.len(),
            |i: int| instruction_of(texts[i]).unwrap(),
        ));
    }
    Ok(program)
}

/// Builds the program that a source text holds: cuts the text into
/// statements, the statements into tokens, and assembles them.
pub fn load(source: &str) -> (r: Result<Vec<Instruction>, Fault>)
    ensures
        match r {
            Ok(program) => loaded(source@) == Ok::<Seq<Line>, Fault>(program.deep_view()),
            Err(fault) => loaded(source@) == Err::<Seq<Line>, Fault>(fault),
        },
{
    let lines: Vec<String> = split_statements(source);
    let tokenised: Vec<Vec<String>> = tokenise_lines(&lines);
    assemble(&tokenised)
}

} // verus!
