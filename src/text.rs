use vstd::prelude::*;
use vstd::string::*;
use crate::naming::decimal;
use crate::types::{
    names_view, string_option_view, BrilValue, Instruction, InstructionType, InstructionView, OpView,
};

verus! {

/// The items one after the other, each pair separated by `sep`.
pub open spec fn join_with(items: Seq<Seq<char>>, sep: Seq<char>) -> Seq<char>
    decreases items.len(),
{
    if items.len() == 0 {
        Seq::empty()
    } else if items.len() == 1 {
        items[0]
    } else {
        join_with(items.drop_last(), sep) + sep + items.last()
    }
}

pub open spec fn comma() -> Seq<char> {
    seq![',', ' ']
}

/// The decimal spelling of a signed integer.
pub open spec fn signed_decimal(n: int) -> Seq<char> {
    if n < 0 {
        seq!['-'] + decimal((-n) as nat)
    } else {
        decimal(n as nat)
    }
}

/// What `{:?}` writes for a string: the string quoted, with special characters escaped.
pub uninterp spec fn debug_quoted(s: Seq<char>) -> Seq<char>;

/// Relies on `i64`'s `Display`, through `to_string`: a minus sign where negative, then the
/// decimal digits with no leading zero.
#[verifier::external_body]
fn int_string(n: i64) -> (r: String)
    ensures
        r@ == signed_decimal(n as int),
{
    n.to_string()
}

/// Relies on `str`'s `Debug`, through `format!("{:?}")`: the quoted, escaped text depends on
/// the characters alone.
#[verifier::external_body]
fn quoted(s: &str) -> (r: String)
    ensures
        r@ == debug_quoted(s@),
{
    format!("{:?}", s)
}

/// The text of a literal, as its variant and value.
pub open spec fn value_text(v: BrilValue) -> Seq<char> {
    match v {
        BrilValue::Bool(b) => seq!['B', 'o', 'o', 'l', '('] + if b {
            seq!['t', 'r', 'u', 'e']
        } else {
            seq!['f', 'a', 'l', 's', 'e']
        } + seq![')'],
        BrilValue::Int(n) => seq!['I', 'n', 't', '('] + signed_decimal(n as int) + seq![')'],
    }
}

/// The text of an operation kind other than a label.
pub open spec fn op_text(op: OpView) -> Seq<char> {
    match op {
        OpView::Const => seq!['C', 'o', 'n', 's', 't'],
        OpView::Call => seq!['C', 'a', 'l', 'l'],
        OpView::Ret => seq!['R', 'e', 't'],
        OpView::Jmp => seq!['J', 'm', 'p'],
        OpView::Br => seq!['B', 'r'],
        OpView::Print => seq!['P', 'r', 'i', 'n', 't'],
        OpView::Unknown(s) => seq!['U', 'n', 'k', 'n', 'o', 'w', 'n', ' ', '{', ' ', 'o', 'p', ':', ' ']
            + debug_quoted(s) + seq![' ', '}'],
        OpView::Label(_) => Seq::empty(),
    }
}

/// `key: text` where the text is present.
pub open spec fn entry(key: Seq<char>, v: Option<Seq<char>>) -> Seq<Seq<char>> {
    match v {
        Some(t) => seq![key + seq![':', ' '] + t],
        None => Seq::empty(),
    }
}

/// `key: [a, b]` where the list is present.
pub open spec fn list_entry(key: Seq<char>, v: Option<Seq<Seq<char>>>) -> Seq<Seq<char>> {
    match v {
        Some(items) => seq![key + seq![':', ' ', '['] + join_with(items, comma()) + seq![']']],
        None => Seq::empty(),
    }
}

/// The diagnostic text of an instruction: `Label(name)` for a label; else the kind and, in
/// parentheses, each present field by name.
pub open spec fn instruction_text(i: InstructionView) -> Seq<char> {
    match i.op {
        OpView::Label(name) => seq!['L', 'a', 'b', 'e', 'l', '('] + name + seq![')'],
        _ => op_text(i.op) + seq!['('] + join_with(
            entry(seq!['d', 'e', 's', 't'], i.dest) + match i.value {
                Some(v) => seq![seq!['v', 'a', 'l', 'u', 'e', ':', ' '] + value_text(v)],
                None => Seq::empty(),
            } + entry(seq!['t', 'y', 'p', 'e'], i.ty) + list_entry(seq!['a', 'r', 'g', 's'], i.args)
                + list_entry(seq!['f', 'u', 'n', 'c', 's'], i.funcs) + list_entry(
                seq!['l', 'a', 'b', 'e', 'l', 's'],
                i.labels,
            ),
            comma(),
        ) + seq![')'],
    }
}

/// Joins `items` with `", "`.
fn join_names(items: &Vec<String>) -> (r: String)
    ensures
        r@ == join_with(items@.map_values(|s: String| s@), comma()),
{
    proof {
        reveal_strlit(", ");
    }
    assert(", "@ =~= comma());
    let ghost all = items@.map_values(|s: String| s@);
    let mut out = String::new();
    let mut k: usize = 0;
    assert(all.take(0) =~= Seq::<Seq<char>>::empty());
    while k < items.len()
        invariant
            k <= items@.len(),
            all == items@.map_values(|s: String| s@),
            ", "@ == comma(),
            out@ == join_with(all.take(k as int), comma()),
        decreases items@.len() - k,
    {
        if k > 0 {
            out.append(", ");
        }
        out.append(items[k].as_str());
        proof {
            assert(all.take(k + 1).drop_last() =~= all.take(k as int));
            assert(all.take(k + 1).last() == items@[k as int]@);
        }
        k += 1;
    }
    assert(all.take(items@.len() as int) =~= all);
    out
}

/// Appends `item` to a list being joined with `", "`, of which `count` items are already there.
fn push_item(out: &mut String, count: usize, item: &String)
    ensures
        final(out)@ == if count == 0 {
            old(out)@ + item@
        } else {
            old(out)@ + comma() + item@
        },
{
    proof {
        reveal_strlit(", ");
    }
    assert(", "@ =~= comma());
    if count > 0 {
        out.append(", ");
    }
    out.append(item.as_str());
}

/// Adds the entry `key: text`, where the text is present, to a list joined with `", "`.
fn push_entry(
    out: &mut String,
    count: usize,
    key: &str,
    v: &Option<String>,
    Ghost(head): Ghost<Seq<char>>,
    Ghost(done): Ghost<Seq<Seq<char>>>,
) -> (c: usize)
    requires
        old(out)@ == head + join_with(done, comma()),
        count == done.len(),
        count < usize::MAX,
    ensures
        final(out)@ == head + join_with(done + entry(key@, string_option_view(*v)), comma()),
        c == done.len() + entry(key@, string_option_view(*v)).len(),
{
    proof {
        reveal_strlit(": ");
    }
    match v {
        Some(t) => {
            let mut item = String::from_str(key);
            item.append(": ");
            item.append(t.as_str());
            assert(item@ =~= key@ + seq![':', ' '] + t@);
            push_item(out, count, &item);
            let ghost all = done + entry(key@, string_option_view(*v));
            assert(all =~= done.push(item@));
            assert(all.drop_last() =~= done);
            count + 1
        },
        None => {
            assert(done + entry(key@, string_option_view(*v)) =~= done);
            count
        },
    }
}

/// Adds the entry `key: [a, b]`, where the list is present, to a list joined with `", "`.
fn push_list_entry(
    out: &mut String,
    count: usize,
    key: &str,
    v: &Option<Vec<String>>,
    Ghost(head): Ghost<Seq<char>>,
    Ghost(done): Ghost<Seq<Seq<char>>>,
) -> (c: usize)
    requires
        old(out)@ == head + join_with(done, comma()),
        count == done.len(),
        count < usize::MAX,
    ensures
        final(out)@ == head + join_with(done + list_entry(key@, names_view(*v)), comma()),
        c == done.len() + list_entry(key@, names_view(*v)).len(),
{
    proof {
        reveal_strlit(": [");
        reveal_strlit("]");
    }
    match v {
        Some(names) => {
            let mut item = String::from_str(key);
            item.append(": [");
            let j = join_names(names);
            item.append(j.as_str());
            item.append("]");
            assert(item@ =~= key@ + seq![':', ' ', '['] + j@ + seq![']']);
            push_item(out, count, &item);
            let ghost all = done + list_entry(key@, names_view(*v));
            assert(all =~= done.push(item@));
            assert(all.drop_last() =~= done);
            count + 1
        },
        None => {
            assert(done + list_entry(key@, names_view(*v)) =~= done);
            count
        },
    }
}

/// The text of a literal.
fn value_string(v: BrilValue) -> (r: String)
    ensures
        r@ == value_text(v),
{
    proof {
        reveal_strlit("Bool(true)");
        reveal_strlit("Bool(false)");
        reveal_strlit("Int(");
        reveal_strlit(")");
    }
    match v {
        BrilValue::Bool(b) => if b {
            let r = String::from_str("Bool(true)");
            assert(r@ =~= value_text(v));
            r
        } else {
            let r = String::from_str("Bool(false)");
            assert(r@ =~= value_text(v));
            r
        },
        BrilValue::Int(n) => {
            let mut r = String::from_str("Int(");
            let digits = int_string(n);
            r.append(digits.as_str());
            r.append(")");
            assert(r@ =~= value_text(v));
            r
        },
    }
}

/// The text of an operation kind other than a label.
fn op_string(op: &InstructionType) -> (r: String)
    ensures
        r@ == op_text(op@),
{
    proof {
        reveal_strlit("Const");
        reveal_strlit("Call");
        reveal_strlit("Ret");
        reveal_strlit("Jmp");
        reveal_strlit("Br");
        reveal_strlit("Print");
        reveal_strlit("Unknown { op: ");
        reveal_strlit(" }");
    }
    let r = match op {
        InstructionType::Const => String::from_str("Const"),
        InstructionType::Call => String::from_str("Call"),
        InstructionType::Ret => String::from_str("Ret"),
        InstructionType::Jmp => String::from_str("Jmp"),
        InstructionType::Br => String::from_str("Br"),
        InstructionType::Print => String::from_str("Print"),
        InstructionType::Unknown { op } => {
            let mut t = String::from_str("Unknown { op: ");
            let q = quoted(op.as_str());
            t.append(q.as_str());
            t.append(" }");
            t
        },
        InstructionType::Label { .. } => String::new(),
    };
    assert(r@ =~= op_text(op@));
    r
}

impl Instruction {
    pub fn to_string(&self) -> (r: String)
        ensures
            r@ == instruction_text(self@),
    {
        proof {
            reveal_strlit("Label(");
            reveal_strlit(")");
            reveal_strlit("(");
            reveal_strlit("dest");
            reveal_strlit("value: ");
            reveal_strlit("type");
            reveal_strlit("args");
            reveal_strlit("funcs");
            reveal_strlit("labels");
        }
        assert("dest"@ =~= seq!['d', 'e', 's', 't']);
        assert("type"@ =~= seq!['t', 'y', 'p', 'e']);
        assert("args"@ =~= seq!['a', 'r', 'g', 's']);
        assert("funcs"@ =~= seq!['f', 'u', 'n', 'c', 's']);
        assert("labels"@ =~= seq!['l', 'a', 'b', 'e', 'l', 's']);
        assert("value: "@ =~= seq!['v', 'a', 'l', 'u', 'e', ':', ' ']);
        if let InstructionType::Label { name } = &self.op {
            let mut out = String::from_str("Label(");
            out.append(name.as_str());
            out.append(")");
            assert(out@ =~= instruction_text(self@));
            return out;
        }
        let mut out = op_string(&self.op);
        out.append("(");
        let ghost head = out@;
        let ghost d0: Seq<Seq<char>> = Seq::empty();
        assert(join_with(d0, comma()) =~= Seq::<char>::empty());
        assert(out@ =~= head + join_with(d0, comma()));
        let count = push_entry(&mut out, 0, "dest", &self.dest, Ghost(head), Ghost(d0));
        let ghost d1 = d0 + entry(seq!['d', 'e', 's', 't'], self@.dest);
        assert(out@ == head + join_with(d1, comma()));
        assert(count == d1.len());
        let ghost vseg: Seq<Seq<char>> = match self@.value {
            Some(v) => seq![seq!['v', 'a', 'l', 'u', 'e', ':', ' '] + value_text(v)],
            None => Seq::empty(),
        };
        let count = match self.value {
            Some(v) => {
                let mut item = String::from_str("value: ");
                let t = value_string(v);
                item.append(t.as_str());
                assert(item@ =~= seq!['v', 'a', 'l', 'u', 'e', ':', ' '] + value_text(v));
                push_item(&mut out, count, &item);
                assert((d1 + vseg) =~= d1.push(item@));
                assert((d1 + vseg).drop_last() =~= d1);
                count + 1
            },
            None => {
                assert(d1 + vseg =~= d1);
                count
            },
        };
        let ghost d2 = d1 + vseg;
        assert(out@ == head + join_with(d2, comma()));
        let count = push_entry(&mut out, count, "type", &self.ty, Ghost(head), Ghost(d2));
        let ghost d3 = d2 + entry(seq!['t', 'y', 'p', 'e'], self@.ty);
        let count = push_list_entry(&mut out, count, "args", &self.args, Ghost(head), Ghost(d3));
        let ghost d4 = d3 + list_entry(seq!['a', 'r', 'g', 's'], self@.args);
        let count = push_list_entry(&mut out, count, "funcs", &self.funcs, Ghost(head), Ghost(d4));
        let ghost d5 = d4 + list_entry(seq!['f', 'u', 'n', 'c', 's'], self@.funcs);
        let _ = push_list_entry(&mut out, count, "labels", &self.labels, Ghost(head), Ghost(d5));
        out.append(")");
        assert(d0 + entry(seq!['d', 'e', 's', 't'], self@.dest) =~= entry(seq!['d', 'e', 's', 't'], self@.dest));
        assert(out@ =~= instruction_text(self@));
        out
    }
}

} // verus!
