use vstd::prelude::*;
use vstd::string::*;
use crate::types::{BrilType, InstructionType, OpView};

verus! {

/// Whether two strings hold the same characters.
pub fn same_text(a: &str, b: &str) -> (r: bool)
    ensures
        r == (a@ == b@),
{
    let n = a.unicode_len();
    if n != b.unicode_len() {
        return false;
    }
    let mut k: usize = 0;
    while k < n
        invariant
            n == a@.len(),
            n == b@.len(),
            k <= n,
            forall|j: int| 0 <= j < k ==> a@[j] == b@[j],
        decreases n - k,
    {
        if a.get_char(k) != b.get_char(k) {
            return false;
        }
        k += 1;
    }
    assert(a@ =~= b@);
    true
}

/// The spellings that a declared type may have on the wire; the empty one means none.
pub open spec fn is_type_name(s: Seq<char>) -> bool {
    s == BrilType::Bool.spec_str() || s == BrilType::Int.spec_str() || s.len() == 0
}

/// The type that a wire spelling names, if any.
pub open spec fn type_named(s: Seq<char>) -> Option<BrilType> {
    if s == BrilType::Bool.spec_str() {
        Some(BrilType::Bool)
    } else if s == BrilType::Int.spec_str() {
        Some(BrilType::Int)
    } else {
        None
    }
}

/// Reads a declared type: `"bool"`, `"int"`, or `""` for none.
pub fn to_bril_type(s: &str) -> (r: Option<BrilType>)
    requires
        is_type_name(s@),
    ensures
        r == type_named(s@),
{
    if same_text(s, BrilType::Bool.to_str()) {
        Some(BrilType::Bool)
    } else if same_text(s, BrilType::Int.to_str()) {
        Some(BrilType::Int)
    } else {
        None
    }
}

pub open spec fn call_name() -> Seq<char> {
    seq!['c', 'a', 'l', 'l']
}

pub open spec fn const_name() -> Seq<char> {
    seq!['c', 'o', 'n', 's', 't']
}

pub open spec fn print_name() -> Seq<char> {
    seq!['p', 'r', 'i', 'n', 't']
}

pub open spec fn ret_name() -> Seq<char> {
    seq!['r', 'e', 't']
}

pub open spec fn br_name() -> Seq<char> {
    seq!['b', 'r']
}

pub open spec fn jmp_name() -> Seq<char> {
    seq!['j', 'm', 'p']
}

/// The operation kind that an `op` field names; any other name is kept as it is.
pub open spec fn op_named(s: Seq<char>) -> OpView {
    if s == call_name() {
        OpView::Call
    } else if s == const_name() {
        OpView::Const
    } else if s == print_name() {
        OpView::Print
    } else if s == ret_name() {
        OpView::Ret
    } else if s == br_name() {
        OpView::Br
    } else if s == jmp_name() {
        OpView::Jmp
    } else {
        OpView::Unknown(s)
    }
}

/// The `op` field that an operation kind is written with; labels have none.
pub open spec fn op_spelling(op: OpView) -> Seq<char> {
    match op {
        OpView::Call => call_name(),
        OpView::Const => const_name(),
        OpView::Print => print_name(),
        OpView::Ret => ret_name(),
        OpView::Br => br_name(),
        OpView::Jmp => jmp_name(),
        OpView::Unknown(s) => s,
        OpView::Label(_) => Seq::empty(),
    }
}

impl InstructionType {
    /// The operation kind that an `op` field names.
    pub fn from_op(op: &str) -> (r: InstructionType)
        ensures
            r@ == op_named(op@),
    {
        proof {
            reveal_strlit("call");
            reveal_strlit("const");
            reveal_strlit("print");
            reveal_strlit("ret");
            reveal_strlit("br");
            reveal_strlit("jmp");
        }
        assert("call"@ =~= call_name());
        assert("const"@ =~= const_name());
        assert("print"@ =~= print_name());
        assert("ret"@ =~= ret_name());
        assert("br"@ =~= br_name());
        assert("jmp"@ =~= jmp_name());
        if same_text(op, "call") {
            InstructionType::Call
        } else if same_text(op, "const") {
            InstructionType::Const
        } else if same_text(op, "print") {
            InstructionType::Print
        } else if same_text(op, "ret") {
            InstructionType::Ret
        } else if same_text(op, "br") {
            InstructionType::Br
        } else if same_text(op, "jmp") {
            InstructionType::Jmp
        } else {
            InstructionType::Unknown { op: String::from_str(op) }
        }
    }

    /// The `op` field this kind is written with.
    pub fn op_name(&self) -> (r: &str)
        requires
            !(self@ is Label),
        ensures
            r@ == op_spelling(self@),
    {
        proof {
            reveal_strlit("call");
            reveal_strlit("const");
            reveal_strlit("print");
            reveal_strlit("ret");
            reveal_strlit("br");
            reveal_strlit("jmp");
        }
        match self {
            InstructionType::Call => "call",
            InstructionType::Const => "const",
            InstructionType::Print => "print",
            InstructionType::Ret => "ret",
            InstructionType::Br => "br",
            InstructionType::Jmp => "jmp",
            InstructionType::Unknown { op } => op.as_str(),
            InstructionType::Label { .. } => "",
        }
    }
}

/// Reading an `op` field and writing the kind back gives the same field, so decoding what was
/// encoded gives the same kind again.
pub proof fn law_op_round_trip(s: Seq<char>)
    ensures
        op_spelling(op_named(s)) == s,
        op_named(op_spelling(op_named(s))) == op_named(s),
{
}

/// Writing a declared type and reading it back gives the same type.
pub proof fn law_type_round_trip(t: BrilType)
    ensures
        is_type_name(t.spec_str()),
        type_named(t.spec_str()) == Some(t),
{
}

} // verus!
