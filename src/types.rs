use vstd::prelude::*;

verus! {

/// A declared value type.
#[derive(Debug, Clone, Copy, PartialEq, Eq, Structural)]
pub enum BrilType {
    Bool,
    Int,
}

impl BrilType {
    /// The wire spelling of the type.
    pub open spec fn spec_str(self) -> Seq<char> {
        match self {
            BrilType::Bool => seq!['b', 'o', 'o', 'l'],
            BrilType::Int => seq!['i', 'n', 't'],
        }
    }

    pub fn to_str(&self) -> (r: &'static str)
        ensures
            r@ == self.spec_str(),
    {
        proof {
            reveal_strlit("bool");
            reveal_strlit("int");
        }
        match self {
            BrilType::Bool => "bool",
            BrilType::Int => "int",
        }
    }
}

/// A literal carried by a `const` instruction.
#[derive(Debug, Clone, Copy, PartialEq, Eq, Structural)]
pub enum BrilValue {
    Bool(bool),
    Int(i64),
}

/// The operation kind of an instruction; a label is its own kind.
#[derive(Debug)]
pub enum InstructionType {
    Label { name: String },
    Const,
    Call,
    Ret,
    Jmp,
    Br,
    Print,
    Unknown { op: String },
}

impl Clone for InstructionType {
    fn clone(&self) -> (r: Self)
        ensures
            r == *self,
    {
        match self {
            InstructionType::Label { name } => InstructionType::Label { name: name.clone() },
            InstructionType::Const => InstructionType::Const,
            InstructionType::Call => InstructionType::Call,
            InstructionType::Ret => InstructionType::Ret,
            InstructionType::Jmp => InstructionType::Jmp,
            InstructionType::Br => InstructionType::Br,
            InstructionType::Print => InstructionType::Print,
            InstructionType::Unknown { op } => InstructionType::Unknown { op: op.clone() },
        }
    }
}

/// One instruction: its kind and whichever optional fields were present.
#[derive(Debug)]
pub struct Instruction {
    pub op: InstructionType,
    pub dest: Option<String>,
    pub value: Option<BrilValue>,
    pub ty: Option<String>,
    pub args: Option<Vec<String>>,
    pub funcs: Option<Vec<String>>,
    pub labels: Option<Vec<String>>,
}

fn copy_string_option(s: &Option<String>) -> (r: Option<String>)
    ensures
        r == *s,
{
    match s {
        Some(x) => Some(x.clone()),
        None => None,
    }
}

/// The view of an optional list of names.
pub open spec fn names_view(v: Option<Vec<String>>) -> Option<Seq<Seq<char>>> {
    match v {
        Some(x) => Some(x@.map_values(|s: String| s@)),
        None => None,
    }
}

fn copy_names(v: &Option<Vec<String>>) -> (r: Option<Vec<String>>)
    ensures
        names_view(r) == names_view(*v),
{
    match v {
        Some(x) => {
            let mut out: Vec<String> = Vec::new();
            let mut i: usize = 0;
            while i < x.len()
                invariant
                    i <= x@.len(),
                    out@ == x@.subrange(0, i as int),
                decreases x@.len() - i,
            {
                out.push(x[i].clone());
                i += 1;
            }
            assert(out@ =~= x@);
            assert(out@.map_values(|s: String| s@) =~= x@.map_values(|s: String| s@));
            Some(out)
        },
        None => None,
    }
}

/// The mathematical value of an operation kind.
pub enum OpView {
    Label(Seq<char>),
    Const,
    Call,
    Ret,
    Jmp,
    Br,
    Print,
    Unknown(Seq<char>),
}

impl View for InstructionType {
    type V = OpView;

    open spec fn view(&self) -> OpView {
        match self {
            InstructionType::Label { name } => OpView::Label(name@),
            InstructionType::Const => OpView::Const,
            InstructionType::Call => OpView::Call,
            InstructionType::Ret => OpView::Ret,
            InstructionType::Jmp => OpView::Jmp,
            InstructionType::Br => OpView::Br,
            InstructionType::Print => OpView::Print,
            InstructionType::Unknown { op } => OpView::Unknown(op@),
        }
    }
}

/// The mathematical value of an instruction: every field as a sequence or a plain value.
pub struct InstructionView {
    pub op: OpView,
    pub dest: Option<Seq<char>>,
    pub value: Option<BrilValue>,
    pub ty: Option<Seq<char>>,
    pub args: Option<Seq<Seq<char>>>,
    pub funcs: Option<Seq<Seq<char>>>,
    pub labels: Option<Seq<Seq<char>>>,
}

pub open spec fn string_option_view(s: Option<String>) -> Option<Seq<char>> {
    match s {
        Some(x) => Some(x@),
        None => None,
    }
}

impl View for Instruction {
    type V = InstructionView;

    open spec fn view(&self) -> InstructionView {
        InstructionView {
            op: self.op@,
            dest: string_option_view(self.dest),
            value: self.value,
            ty: string_option_view(self.ty),
            args: names_view(self.args),
            funcs: names_view(self.funcs),
            labels: names_view(self.labels),
        }
    }
}

impl Clone for Instruction {
    fn clone(&self) -> (r: Self)
        ensures
            r@ == self@,
    {
        Instruction {
            op: self.op.clone(),
            dest: copy_string_option(&self.dest),
            value: self.value,
            ty: copy_string_option(&self.ty),
            args: copy_names(&self.args),
            funcs: copy_names(&self.funcs),
            labels: copy_names(&self.labels),
        }
    }
}

impl InstructionView {
    /// Whether this instruction is a label (a jump target, not executed).
    pub open spec fn is_label(self) -> bool {
        self.op is Label
    }

    /// Whether this instruction ends a basic block.
    pub open spec fn is_terminator(self) -> bool {
        self.op is Ret || self.op is Jmp || self.op is Br
    }

    /// The label names carried by the instruction, in order.
    pub open spec fn targets(self) -> Seq<Seq<char>> {
        match self.labels {
            Some(v) => v,
            None => Seq::empty(),
        }
    }
}

/// A function: its name, typed parameters, optional return type and body.
#[derive(Debug)]
pub struct Function {
    pub name: String,
    pub args: Vec<(String, BrilType)>,
    pub ret_type: Option<BrilType>,
    pub instructions: Vec<Instruction>,
}

} // verus!
