use vstd::prelude::*;
use vstd::string::*;
use crate::parsing::{
    is_type_name, law_op_round_trip, op_named, op_spelling, same_text, to_bril_type, type_named,
};
use crate::types::{
    names_view, string_option_view, BrilType, BrilValue, Function, Instruction, InstructionType,
    InstructionView, OpView,
};
use crate::cfg::views_of;

verus! {

/// What one field of an instruction record holds on the wire.
#[derive(Debug)]
pub enum WireValue {
    Text(String),
    Names(Vec<String>),
    Bool(bool),
    Int(i64),
    /// Any other value (null, a fraction, an object).
    Other,
}

/// Why a record is not an instruction.
#[derive(Debug, Clone, Copy, PartialEq, Eq, Structural)]
pub enum DecodeError {
    /// Neither an `op` nor a `label` text field.
    MissingOp,
    /// A `value` field without a `type` text field.
    UntypedValue,
    /// A `value` field whose `type` is neither `int` nor `bool`.
    UnknownValueType,
    /// A `value` field that does not hold what its `type` names.
    ValueMismatch,
    /// A parameter type other than `bool` or `int`, or a return type other than those or none.
    UnknownType,
}

/// The mathematical value of a wire field.
pub enum WireView {
    Text(Seq<char>),
    Names(Seq<Seq<char>>),
    Bool(bool),
    Int(i64),
    Other,
}

impl View for WireValue {
    type V = WireView;

    open spec fn view(&self) -> WireView {
        match self {
            WireValue::Text(s) => WireView::Text(s@),
            WireValue::Names(v) => WireView::Names(v@.map_values(|s: String| s@)),
            WireValue::Bool(b) => WireView::Bool(*b),
            WireValue::Int(n) => WireView::Int(*n),
            WireValue::Other => WireView::Other,
        }
    }
}

/// A record: its fields in order, each a key and a value.
pub open spec fn record_view(fields: Seq<(String, WireValue)>) -> Seq<(Seq<char>, WireView)> {
    fields.map_values(|f: (String, WireValue)| (f.0@, f.1@))
}

pub open spec fn key_op() -> Seq<char> {
    seq!['o', 'p']
}

pub open spec fn key_label() -> Seq<char> {
    seq!['l', 'a', 'b', 'e', 'l']
}

pub open spec fn key_dest() -> Seq<char> {
    seq!['d', 'e', 's', 't']
}

pub open spec fn key_type() -> Seq<char> {
    seq!['t', 'y', 'p', 'e']
}

pub open spec fn key_args() -> Seq<char> {
    seq!['a', 'r', 'g', 's']
}

pub open spec fn key_funcs() -> Seq<char> {
    seq!['f', 'u', 'n', 'c', 's']
}

pub open spec fn key_labels() -> Seq<char> {
    seq!['l', 'a', 'b', 'e', 'l', 's']
}

pub open spec fn key_value() -> Seq<char> {
    seq!['v', 'a', 'l', 'u', 'e']
}

/// The field `key` with a text value, where the text is present.
pub open spec fn text_field(key: Seq<char>, v: Option<Seq<char>>) -> Seq<(Seq<char>, WireView)> {
    match v {
        Some(s) => seq![(key, WireView::Text(s))],
        None => Seq::empty(),
    }
}

/// The field `key` with a list of names, where the list is present.
pub open spec fn names_field(key: Seq<char>, v: Option<Seq<Seq<char>>>) -> Seq<
    (Seq<char>, WireView),
> {
    match v {
        Some(s) => seq![(key, WireView::Names(s))],
        None => Seq::empty(),
    }
}

/// The `value` field, where a literal is present.
pub open spec fn value_field(v: Option<BrilValue>) -> Seq<(Seq<char>, WireView)> {
    match v {
        Some(BrilValue::Bool(b)) => seq![(key_value(), WireView::Bool(b))],
        Some(BrilValue::Int(n)) => seq![(key_value(), WireView::Int(n))],
        None => Seq::empty(),
    }
}

/// The record an instruction is written as: a label has its `label` field alone; any other
/// instruction has the optional fields that are present and then `op`.
pub open spec fn encode(i: InstructionView) -> Seq<(Seq<char>, WireView)> {
    match i.op {
        OpView::Label(name) => seq![(key_label(), WireView::Text(name))],
        _ => text_field(key_dest(), i.dest) + text_field(key_type(), i.ty) + names_field(
            key_args(),
            i.args,
        ) + names_field(key_funcs(), i.funcs) + names_field(key_labels(), i.labels)
            + value_field(i.value) + seq![(key_op(), WireView::Text(op_spelling(i.op)))],
    }
}

fn push_text(out: &mut Vec<(String, WireValue)>, key: &str, v: &Option<String>)
    ensures
        record_view(final(out)@) == record_view(old(out)@) + text_field(key@, string_option_view(*v)),
{
    match v {
        Some(s) => {
            out.push((String::from_str(key), WireValue::Text(s.clone())));
        },
        None => {},
    }
    assert(record_view(out@) =~= record_view(old(out)@) + text_field(key@, string_option_view(*v)));
}

fn copy_strings(v: &Vec<String>) -> (r: Vec<String>)
    ensures
        r@ == v@,
{
    let mut out: Vec<String> = Vec::new();
    let mut i: usize = 0;
    while i < v.len()
        invariant
            i <= v@.len(),
            out@ == v@.subrange(0, i as int),
        decreases v@.len() - i,
    {
        out.push(v[i].clone());
        i += 1;
    }
    assert(out@ =~= v@);
    out
}

fn push_names(out: &mut Vec<(String, WireValue)>, key: &str, v: &Option<Vec<String>>)
    ensures
        record_view(final(out)@) == record_view(old(out)@) + names_field(key@, names_view(*v)),
{
    match v {
        Some(s) => {
            out.push((String::from_str(key), WireValue::Names(copy_strings(s))));
        },
        None => {},
    }
    assert(record_view(out@) =~= record_view(old(out)@) + names_field(key@, names_view(*v)));
}

impl Instruction {
    /// The record this instruction is written as.
    pub fn to_wire(&self) -> (r: Vec<(String, WireValue)>)
        ensures
            record_view(r@) == encode(self@),
    {
        proof {
            reveal_strlit("op");
            reveal_strlit("label");
            reveal_strlit("dest");
            reveal_strlit("type");
            reveal_strlit("args");
            reveal_strlit("funcs");
            reveal_strlit("labels");
            reveal_strlit("value");
        }
        assert("op"@ =~= key_op());
        assert("label"@ =~= key_label());
        assert("dest"@ =~= key_dest());
        assert("type"@ =~= key_type());
        assert("args"@ =~= key_args());
        assert("funcs"@ =~= key_funcs());
        assert("labels"@ =~= key_labels());
        assert("value"@ =~= key_value());
        let mut out: Vec<(String, WireValue)> = Vec::new();
        if let InstructionType::Label { name } = &self.op {
            out.push((String::from_str("label"), WireValue::Text(name.clone())));
            assert(record_view(out@) =~= encode(self@));
            return out;
        }
        push_text(&mut out, "dest", &self.dest);
        push_text(&mut out, "type", &self.ty);
        push_names(&mut out, "args", &self.args);
        push_names(&mut out, "funcs", &self.funcs);
        push_names(&mut out, "labels", &self.labels);
        let ghost before = record_view(out@);
        match self.value {
            Some(BrilValue::Bool(b)) => out.push((String::from_str("value"), WireValue::Bool(b))),
            Some(BrilValue::Int(n)) => out.push((String::from_str("value"), WireValue::Int(n))),
            None => {},
        }
        assert(record_view(out@) =~= before + value_field(self.value));
        let op = String::from_str(self.op.op_name());
        let ghost before = record_view(out@);
        out.push((String::from_str("op"), WireValue::Text(op)));
        assert(record_view(out@) =~= before + seq![(key_op(), WireView::Text(op_spelling(self.op@)))]);
        assert(record_view(out@) =~= encode(self@));
        out
    }
}

/// The value of the first field called `key`.
pub open spec fn lookup(fields: Seq<(Seq<char>, WireView)>, key: Seq<char>) -> Option<WireView>
    decreases fields.len(),
{
    if fields.len() == 0 {
        None
    } else if fields[0].0 == key {
        Some(fields[0].1)
    } else {
        lookup(fields.drop_first(), key)
    }
}

/// The text a field holds, if it holds text.
pub open spec fn text_of(w: Option<WireView>) -> Option<Seq<char>> {
    match w {
        Some(WireView::Text(s)) => Some(s),
        _ => None,
    }
}

/// The names a field holds, if it holds a list.
pub open spec fn list_of(w: Option<WireView>) -> Option<Seq<Seq<char>>> {
    match w {
        Some(WireView::Names(v)) => Some(v),
        _ => None,
    }
}

/// The operation kind of a record: its `op` text, else its `label` text.
pub open spec fn decode_op(fields: Seq<(Seq<char>, WireView)>) -> Option<OpView> {
    match text_of(lookup(fields, key_op())) {
        Some(s) => Some(op_named(s)),
        None => match text_of(lookup(fields, key_label())) {
            Some(n) => Some(OpView::Label(n)),
            None => None,
        },
    }
}

/// The literal of a record, read as its `type` field says.
pub open spec fn decode_value(fields: Seq<(Seq<char>, WireView)>) -> Result<
    Option<BrilValue>,
    DecodeError,
> {
    match lookup(fields, key_value()) {
        None => Ok(None),
        Some(v) => match text_of(lookup(fields, key_type())) {
            None => Err(DecodeError::UntypedValue),
            Some(t) => if t == BrilType::Int.spec_str() {
                match v {
                    WireView::Int(n) => Ok(Some(BrilValue::Int(n))),
                    _ => Err(DecodeError::ValueMismatch),
                }
            } else if t == BrilType::Bool.spec_str() {
                match v {
                    WireView::Bool(b) => Ok(Some(BrilValue::Bool(b))),
                    _ => Err(DecodeError::ValueMismatch),
                }
            } else {
                Err(DecodeError::UnknownValueType)
            },
        },
    }
}

/// The instruction a record stands for.
pub open spec fn decode(fields: Seq<(Seq<char>, WireView)>) -> Result<InstructionView, DecodeError> {
    match decode_op(fields) {
        None => Err(DecodeError::MissingOp),
        Some(op) => match decode_value(fields) {
            Err(e) => Err(e),
            Ok(value) => Ok(
                InstructionView {
                    op,
                    dest: text_of(lookup(fields, key_dest())),
                    value,
                    ty: text_of(lookup(fields, key_type())),
                    args: list_of(lookup(fields, key_args())),
                    funcs: list_of(lookup(fields, key_funcs())),
                    labels: list_of(lookup(fields, key_labels())),
                },
            ),
        },
    }
}

proof fn lemma_lookup_at(fields: Seq<(Seq<char>, WireView)>, key: Seq<char>, j: int)
    requires
        0 <= j <= fields.len(),
        forall|k: int| 0 <= k < j ==> fields[k].0 != key,
    ensures
        j < fields.len() && fields[j].0 == key ==> lookup(fields, key) == Some(fields[j].1),
        j == fields.len() ==> lookup(fields, key) is None,
    decreases j,
{
    if j > 0 {
        assert forall|k: int| 0 <= k < j - 1 implies fields.drop_first()[k].0 != key by {
            assert(fields.drop_first()[k] == fields[k + 1]);
        }
        lemma_lookup_at(fields.drop_first(), key, j - 1);
    } else if fields.len() == 0 {
    }
}

proof fn lemma_lookup_concat(
    a: Seq<(Seq<char>, WireView)>,
    b: Seq<(Seq<char>, WireView)>,
    key: Seq<char>,
)
    ensures
        lookup(a + b, key) == match lookup(a, key) {
            Some(v) => Some(v),
            None => lookup(b, key),
        },
    decreases a.len(),
{
    if a.len() == 0 {
        assert(a + b =~= b);
    } else {
        assert((a + b).drop_first() =~= a.drop_first() + b);
        assert((a + b)[0] == a[0]);
        lemma_lookup_concat(a.drop_first(), b, key);
    }
}

proof fn lemma_lookup_single(key: Seq<char>, v: WireView, k: Seq<char>)
    ensures
        lookup(seq![(key, v)], k) == if key == k {
            Some(v)
        } else {
            None
        },
{
    let one = seq![(key, v)];
    assert(one.drop_first() =~= Seq::<(Seq<char>, WireView)>::empty());
    assert(lookup(Seq::<(Seq<char>, WireView)>::empty(), k) is None);
    assert(one[0] == (key, v));
    assert(lookup(one, k) == if one[0].0 == k {
        Some(one[0].1)
    } else {
        lookup(one.drop_first(), k)
    });
}

/// Finds the first field called `key`.
fn find_field(fields: &Vec<(String, WireValue)>, key: &str) -> (r: Option<usize>)
    ensures
        match r {
            Some(j) => j < fields@.len() && lookup(record_view(fields@), key@) == Some(
                fields@[j as int].1@,
            ),
            None => lookup(record_view(fields@), key@) is None,
        },
{
    let ghost rv = record_view(fields@);
    let mut j: usize = 0;
    while j < fields.len()
        invariant
            j <= fields@.len(),
            rv == record_view(fields@),
            forall|k: int| 0 <= k < j ==> rv[k].0 != key@,
        decreases fields@.len() - j,
    {
        assert(rv[j as int] == (fields@[j as int].0@, fields@[j as int].1@));
        if same_text(fields[j].0.as_str(), key) {
            proof {
                lemma_lookup_at(rv, key@, j as int);
            }
            return Some(j);
        }
        j += 1;
    }
    proof {
        lemma_lookup_at(rv, key@, j as int);
    }
    None
}

fn field_text(fields: &Vec<(String, WireValue)>, key: &str) -> (r: Option<String>)
    ensures
        string_option_view(r) == text_of(lookup(record_view(fields@), key@)),
{
    match find_field(fields, key) {
        Some(j) => match &fields[j].1 {
            WireValue::Text(s) => Some(s.clone()),
            _ => None,
        },
        None => None,
    }
}

fn field_names(fields: &Vec<(String, WireValue)>, key: &str) -> (r: Option<Vec<String>>)
    ensures
        names_view(r) == list_of(lookup(record_view(fields@), key@)),
{
    match find_field(fields, key) {
        Some(j) => match &fields[j].1 {
            WireValue::Names(v) => {
                let c = copy_strings(v);
                assert(c@.map_values(|s: String| s@) =~= v@.map_values(|s: String| s@));
                Some(c)
            },
            _ => None,
        },
        None => None,
    }
}

impl Instruction {
    /// Reads an instruction from its record; fails exactly as `decode` says.
    pub fn from_wire(fields: &Vec<(String, WireValue)>) -> (r: Result<Instruction, DecodeError>)
        ensures
            match r {
                Ok(i) => decode(record_view(fields@)) == Ok::<InstructionView, DecodeError>(i@),
                Err(e) => decode(record_view(fields@)) == Err::<InstructionView, DecodeError>(e),
            },
    {
        proof {
            reveal_strlit("op");
            reveal_strlit("label");
            reveal_strlit("dest");
            reveal_strlit("type");
            reveal_strlit("args");
            reveal_strlit("funcs");
            reveal_strlit("labels");
            reveal_strlit("value");
        }
        assert("op"@ =~= key_op());
        assert("label"@ =~= key_label());
        assert("dest"@ =~= key_dest());
        assert("type"@ =~= key_type());
        assert("args"@ =~= key_args());
        assert("funcs"@ =~= key_funcs());
        assert("labels"@ =~= key_labels());
        assert("value"@ =~= key_value());
        let ghost rv = record_view(fields@);
        let op = match find_field(fields, "op") {
            Some(j) => match &fields[j].1 {
                WireValue::Text(s) => Some(InstructionType::from_op(s.as_str())),
                _ => None,
            },
            None => None,
        };
        let op = match op {
            Some(op) => op,
            None => match field_text(fields, "label") {
                Some(name) => InstructionType::Label { name },
                None => {
                    return Err(DecodeError::MissingOp);
                },
            },
        };
        assert(decode_op(rv) == Some(op@));
        let ty = field_text(fields, "type");
        let value = match find_field(fields, "value") {
            None => None,
            Some(j) => match &ty {
                None => {
                    return Err(DecodeError::UntypedValue);
                },
                Some(t) => if same_text(t.as_str(), BrilType::Int.to_str()) {
                    match &fields[j].1 {
                        WireValue::Int(n) => Some(BrilValue::Int(*n)),
                        _ => {
                            return Err(DecodeError::ValueMismatch);
                        },
                    }
                } else if same_text(t.as_str(), BrilType::Bool.to_str()) {
                    match &fields[j].1 {
                        WireValue::Bool(b) => Some(BrilValue::Bool(*b)),
                        _ => {
                            return Err(DecodeError::ValueMismatch);
                        },
                    }
                } else {
                    return Err(DecodeError::UnknownValueType);
                },
            },
        };
        assert(decode_value(rv) == Ok::<Option<BrilValue>, DecodeError>(value));
        Ok(
            Instruction {
                op,
                dest: field_text(fields, "dest"),
                value,
                ty,
                args: field_names(fields, "args"),
                funcs: field_names(fields, "funcs"),
                labels: field_names(fields, "labels"),
            },
        )
    }
}

/// A label carries no other field, as its record has none.
pub open spec fn label_alone(i: InstructionView) -> bool {
    i.op is Label ==> (i.dest is None && i.value is None && i.ty is None && i.args is None
        && i.funcs is None && i.labels is None)
}

/// The first of two lookups that found something.
pub open spec fn first_of(a: Option<WireView>, b: Option<WireView>) -> Option<WireView> {
    match a {
        Some(v) => Some(v),
        None => b,
    }
}

proof fn lemma_segment_lookups(i: InstructionView, k: Seq<char>)
    ensures
        lookup(text_field(key_dest(), i.dest), k) == if i.dest is Some && key_dest() == k {
            Some(WireView::Text(i.dest->0))
        } else {
            None
        },
        lookup(text_field(key_type(), i.ty), k) == if i.ty is Some && key_type() == k {
            Some(WireView::Text(i.ty->0))
        } else {
            None
        },
        lookup(names_field(key_args(), i.args), k) == if i.args is Some && key_args() == k {
            Some(WireView::Names(i.args->0))
        } else {
            None
        },
        lookup(names_field(key_funcs(), i.funcs), k) == if i.funcs is Some && key_funcs() == k {
            Some(WireView::Names(i.funcs->0))
        } else {
            None
        },
        lookup(names_field(key_labels(), i.labels), k) == if i.labels is Some && key_labels()
            == k {
            Some(WireView::Names(i.labels->0))
        } else {
            None
        },
        lookup(value_field(i.value), k) == match i.value {
            Some(BrilValue::Bool(b)) => if key_value() == k {
                Some(WireView::Bool(b))
            } else {
                None
            },
            Some(BrilValue::Int(n)) => if key_value() == k {
                Some(WireView::Int(n))
            } else {
                None
            },
            None => None,
        },
        lookup(seq![(key_op(), WireView::Text(op_spelling(i.op)))], k) == if key_op() == k {
            Some(WireView::Text(op_spelling(i.op)))
        } else {
            None
        },
{
    let empty = Seq::<(Seq<char>, WireView)>::empty();
    assert(lookup(empty, k) is None);
    if let Some(d) = i.dest {
        lemma_lookup_single(key_dest(), WireView::Text(d), k);
    }
    if let Some(t) = i.ty {
        lemma_lookup_single(key_type(), WireView::Text(t), k);
    }
    if let Some(a) = i.args {
        lemma_lookup_single(key_args(), WireView::Names(a), k);
    }
    if let Some(f) = i.funcs {
        lemma_lookup_single(key_funcs(), WireView::Names(f), k);
    }
    if let Some(l) = i.labels {
        lemma_lookup_single(key_labels(), WireView::Names(l), k);
    }
    match i.value {
        Some(BrilValue::Bool(b)) => lemma_lookup_single(key_value(), WireView::Bool(b), k),
        Some(BrilValue::Int(n)) => lemma_lookup_single(key_value(), WireView::Int(n), k),
        None => {},
    }
    lemma_lookup_single(key_op(), WireView::Text(op_spelling(i.op)), k);
}

proof fn lemma_encode_lookup(i: InstructionView, k: Seq<char>)
    requires
        !(i.op is Label),
    ensures
        lookup(encode(i), k) == first_of(
            first_of(
                first_of(
                    first_of(
                        first_of(
                            first_of(
                                lookup(text_field(key_dest(), i.dest), k),
                                lookup(text_field(key_type(), i.ty), k),
                            ),
                            lookup(names_field(key_args(), i.args), k),
                        ),
                        lookup(names_field(key_funcs(), i.funcs), k),
                    ),
                    lookup(names_field(key_labels(), i.labels), k),
                ),
                lookup(value_field(i.value), k),
            ),
            lookup(seq![(key_op(), WireView::Text(op_spelling(i.op)))], k),
        ),
{
    let s1 = text_field(key_dest(), i.dest);
    let s2 = text_field(key_type(), i.ty);
    let s3 = names_field(key_args(), i.args);
    let s4 = names_field(key_funcs(), i.funcs);
    let s5 = names_field(key_labels(), i.labels);
    let s6 = value_field(i.value);
    let s7 = seq![(key_op(), WireView::Text(op_spelling(i.op)))];
    lemma_lookup_concat(s1, s2, k);
    lemma_lookup_concat(s1 + s2, s3, k);
    lemma_lookup_concat(s1 + s2 + s3, s4, k);
    lemma_lookup_concat(s1 + s2 + s3 + s4, s5, k);
    lemma_lookup_concat(s1 + s2 + s3 + s4 + s5, s6, k);
    lemma_lookup_concat(s1 + s2 + s3 + s4 + s5 + s6, s7, k);
}

/// An instruction in the form that decoding gives: a label carries no other field, an
/// operation kind reads back from its own spelling, and a literal is typed by its `type` field.
pub open spec fn decoded_form(i: InstructionView) -> bool {
    &&& label_alone(i)
    &&& (!(i.op is Label) ==> op_named(op_spelling(i.op)) == i.op)
    &&& match i.value {
        Some(BrilValue::Int(_)) => i.ty == Some(BrilType::Int.spec_str()),
        Some(BrilValue::Bool(_)) => i.ty == Some(BrilType::Bool.spec_str()),
        None => true,
    }
}

proof fn lemma_decoded_form(fields: Seq<(Seq<char>, WireView)>, i: InstructionView)
    requires
        decode(fields) == Ok::<InstructionView, DecodeError>(i),
        label_alone(i),
    ensures
        decoded_form(i),
{
    if !(i.op is Label) {
        let s = text_of(lookup(fields, key_op()));
        if s is None {
            assert(decode_op(fields) matches Some(OpView::Label(_)));
        }
        law_op_round_trip(s->0);
    }
}

proof fn lemma_encode_decodes(i: InstructionView)
    requires
        decoded_form(i),
    ensures
        decode(encode(i)) == Ok::<InstructionView, DecodeError>(i),
{
    let e = encode(i);
    match i.op {
        OpView::Label(name) => {
            lemma_lookup_single(key_label(), WireView::Text(name), key_op());
            lemma_lookup_single(key_label(), WireView::Text(name), key_label());
            lemma_lookup_single(key_label(), WireView::Text(name), key_value());
            lemma_lookup_single(key_label(), WireView::Text(name), key_dest());
            lemma_lookup_single(key_label(), WireView::Text(name), key_type());
            lemma_lookup_single(key_label(), WireView::Text(name), key_args());
            lemma_lookup_single(key_label(), WireView::Text(name), key_funcs());
            lemma_lookup_single(key_label(), WireView::Text(name), key_labels());
        },
        _ => {
            lemma_encode_lookup(i, key_op());
            lemma_segment_lookups(i, key_op());
            lemma_encode_lookup(i, key_value());
            lemma_segment_lookups(i, key_value());
            lemma_encode_lookup(i, key_dest());
            lemma_segment_lookups(i, key_dest());
            lemma_encode_lookup(i, key_type());
            lemma_segment_lookups(i, key_type());
            lemma_encode_lookup(i, key_args());
            lemma_segment_lookups(i, key_args());
            lemma_encode_lookup(i, key_funcs());
            lemma_segment_lookups(i, key_funcs());
            lemma_encode_lookup(i, key_labels());
            lemma_segment_lookups(i, key_labels());
            assert(decode_op(e) == Some(i.op));
            assert(decode_value(e) == Ok::<Option<BrilValue>, DecodeError>(i.value));
        },
    }
}

/// Round trip: where a record decodes to an instruction (a label carrying no other field),
/// the record that instruction is written as decodes to the same instruction.
pub proof fn law_wire_round_trip(fields: Seq<(Seq<char>, WireView)>, i: InstructionView)
    requires
        decode(fields) == Ok::<InstructionView, DecodeError>(i),
        label_alone(i),
    ensures
        decode(encode(i)) == Ok::<InstructionView, DecodeError>(i),
{
    lemma_decoded_form(fields, i);
    lemma_encode_decodes(i);
}

/// The parameters of a function record, each a name and a type spelling, where every type is
/// `bool` or `int`.
pub open spec fn decode_params(params: Seq<(Seq<char>, Seq<char>)>) -> Option<
    Seq<(Seq<char>, BrilType)>,
>
    decreases params.len(),
{
    if params.len() == 0 {
        Some(Seq::empty())
    } else {
        match (decode_params(params.drop_last()), type_named(params.last().1)) {
            (Some(done), Some(t)) => Some(done.push((params.last().0, t))),
            _ => None,
        }
    }
}

/// The instructions of a list of records, or the error of the first that does not decode.
pub open spec fn decode_all(records: Seq<Seq<(Seq<char>, WireView)>>) -> Result<
    Seq<InstructionView>,
    DecodeError,
>
    decreases records.len(),
{
    if records.len() == 0 {
        Ok(Seq::empty())
    } else {
        match decode_all(records.drop_last()) {
            Err(e) => Err(e),
            Ok(done) => match decode(records.last()) {
                Err(e) => Err(e),
                Ok(i) => Ok(done.push(i)),
            },
        }
    }
}

pub open spec fn params_view(params: Seq<(String, String)>) -> Seq<(Seq<char>, Seq<char>)> {
    params.map_values(|p: (String, String)| (p.0@, p.1@))
}

pub open spec fn typed_params_view(params: Seq<(String, BrilType)>) -> Seq<(Seq<char>, BrilType)> {
    params.map_values(|p: (String, BrilType)| (p.0@, p.1))
}

pub open spec fn records_view(records: Seq<Vec<(String, WireValue)>>) -> Seq<
    Seq<(Seq<char>, WireView)>,
> {
    records.map_values(|r: Vec<(String, WireValue)>| record_view(r@))
}

impl Function {
    /// Builds a function from its record: its name, its parameters as names and type
    /// spellings, its return type spelling (empty for none) and its instruction records.
    /// Parameters are checked first, then the return type, then the instructions in order.
    pub fn from_wire(
        name: String,
        params: &Vec<(String, String)>,
        ret_type: &str,
        records: &Vec<Vec<(String, WireValue)>>,
    ) -> (r: Result<Function, DecodeError>)
        ensures
            match r {
                Ok(f) => {
                    &&& f.name == name
                    &&& decode_params(params_view(params@)) == Some(typed_params_view(f.args@))
                    &&& is_type_name(ret_type@)
                    &&& f.ret_type == type_named(ret_type@)
                    &&& decode_all(records_view(records@)) == Ok::<
                        Seq<InstructionView>,
                        DecodeError,
                    >(views_of(f.instructions@))
                },
                Err(e) => if decode_params(params_view(params@)) is None || !is_type_name(
                    ret_type@,
                ) {
                    e == DecodeError::UnknownType
                } else {
                    decode_all(records_view(records@)) == Err::<Seq<InstructionView>, DecodeError>(
                        e,
                    )
                },
            },
    {
        let ghost pv = params_view(params@);
        let mut args: Vec<(String, BrilType)> = Vec::new();
        let mut k: usize = 0;
        while k < params.len()
            invariant
                k <= params@.len(),
                pv == params_view(params@),
                decode_params(pv.take(k as int)) == Some(typed_params_view(args@)),
            decreases params@.len() - k,
        {
            proof {
                assert(pv.take(k + 1).drop_last() =~= pv.take(k as int));
                assert(pv.take(k + 1).last() == (params@[k as int].0@, params@[k as int].1@));
            }
            let t = params[k].1.as_str();
            let bool_name = BrilType::Bool.to_str();
            let int_name = BrilType::Int.to_str();
            if !same_text(t, bool_name) && !same_text(t, int_name) {
                proof {
                    lemma_params_prefix(pv, k as int + 1);
                }
                return Err(DecodeError::UnknownType);
            }
            match to_bril_type(t) {
                Some(ty) => {
                    args.push((params[k].0.clone(), ty));
                    assert(typed_params_view(args@) =~= typed_params_view(args@).drop_last().push(
                        (params@[k as int].0@, ty),
                    ));
                    assert(typed_params_view(args@).drop_last() =~= typed_params_view(
                        args@.drop_last(),
                    ));
                },
                None => {
                    return Err(DecodeError::UnknownType);
                },
            }
            k += 1;
        }
        assert(pv.take(params@.len() as int) =~= pv);
        if !same_text(ret_type, "") && !same_text(ret_type, BrilType::Bool.to_str()) && !same_text(
            ret_type,
            BrilType::Int.to_str(),
        ) {
            proof {
                reveal_strlit("");
                assert(""@ =~= Seq::<char>::empty());
                if ret_type@.len() == 0 {
                    assert(ret_type@ =~= ""@);
                }
            }
            return Err(DecodeError::UnknownType);
        }
        proof {
            reveal_strlit("");
            assert(""@ =~= Seq::<char>::empty());
            if ret_type@.len() == 0 {
                assert(ret_type@ =~= Seq::<char>::empty());
            }
        }
        let ret = to_bril_type(ret_type);
        let ghost rv = records_view(records@);
        let mut instructions: Vec<Instruction> = Vec::new();
        let mut j: usize = 0;
        assert(rv.take(0) =~= Seq::<Seq<(Seq<char>, WireView)>>::empty());
        assert(views_of(instructions@) =~= Seq::<InstructionView>::empty());
        while j < records.len()
            invariant
                j <= records@.len(),
                decode_params(params_view(params@)) is Some,
                is_type_name(ret_type@),
                rv == records_view(records@),
                decode_all(rv.take(j as int)) == Ok::<Seq<InstructionView>, DecodeError>(
                    views_of(instructions@),
                ),
            decreases records@.len() - j,
        {
            proof {
                assert(rv.take(j + 1).drop_last() =~= rv.take(j as int));
                assert(rv.take(j + 1).last() == record_view(records@[j as int]@));
            }
            match Instruction::from_wire(&records[j]) {
                Ok(i) => {
                    let ghost before = views_of(instructions@);
                    instructions.push(i);
                    assert(views_of(instructions@) =~= before.push(i@));
                },
                Err(e) => {
                    proof {
                        lemma_records_prefix(rv, j as int + 1);
                    }
                    return Err(e);
                },
            }
            j += 1;
        }
        assert(rv.take(records@.len() as int) =~= rv);
        Ok(Function { name, args, ret_type: ret, instructions })
    }
}

/// A parameter list whose first `n` entries fail to decode fails as a whole.
proof fn lemma_params_prefix(pv: Seq<(Seq<char>, Seq<char>)>, n: int)
    requires
        0 <= n <= pv.len(),
        decode_params(pv.take(n)) is None,
    ensures
        decode_params(pv) is None,
    decreases pv.len() - n,
{
    if n < pv.len() {
        assert(pv.take(n + 1).drop_last() =~= pv.take(n));
        lemma_params_prefix(pv, n + 1);
    } else {
        assert(pv.take(n) =~= pv);
    }
}

/// A record list whose first `n` records fail with `e` fails with `e` as a whole.
proof fn lemma_records_prefix(rv: Seq<Seq<(Seq<char>, WireView)>>, n: int)
    requires
        0 <= n <= rv.len(),
        decode_all(rv.take(n)) is Err,
    ensures
        decode_all(rv) == decode_all(rv.take(n)),
    decreases rv.len() - n,
{
    if n < rv.len() {
        assert(rv.take(n + 1).drop_last() =~= rv.take(n));
        lemma_records_prefix(rv, n + 1);
    } else {
        assert(rv.take(n) =~= rv);
    }
}

/// The parameters written as names and type spellings.
pub open spec fn spelled_params(args: Seq<(Seq<char>, BrilType)>) -> Seq<(Seq<char>, Seq<char>)> {
    args.map_values(|p: (Seq<char>, BrilType)| (p.0, p.1.spec_str()))
}

/// The return type's spelling, where there is one.
pub open spec fn ret_spelling(t: Option<BrilType>) -> Option<Seq<char>> {
    match t {
        Some(t) => Some(t.spec_str()),
        None => None,
    }
}

/// The records the instructions are written as.
pub open spec fn encode_all(instrs: Seq<InstructionView>) -> Seq<Seq<(Seq<char>, WireView)>> {
    instrs.map_values(|i: InstructionView| encode(i))
}

impl Function {
    /// The parts of the record this function is written as: its name, its parameters as names
    /// and type spellings, its return type spelling where there is one (the field is left out
    /// otherwise), and the record of each instruction.
    pub fn to_wire(&self) -> (r: (
        String,
        Vec<(String, String)>,
        Option<String>,
        Vec<Vec<(String, WireValue)>>,
    ))
        ensures
            r.0@ == self.name@,
            params_view(r.1@) == spelled_params(typed_params_view(self.args@)),
            string_option_view(r.2) == ret_spelling(self.ret_type),
            records_view(r.3@) == encode_all(views_of(self.instructions@)),
    {
        let mut params: Vec<(String, String)> = Vec::new();
        let mut k: usize = 0;
        while k < self.args.len()
            invariant
                k <= self.args@.len(),
                params_view(params@) == spelled_params(typed_params_view(self.args@)).take(
                    k as int,
                ),
            decreases self.args@.len() - k,
        {
            let ghost before = params_view(params@);
            params.push((self.args[k].0.clone(), String::from_str(self.args[k].1.to_str())));
            assert(params_view(params@) =~= before.push(
                spelled_params(typed_params_view(self.args@))[k as int],
            ));
            assert(spelled_params(typed_params_view(self.args@)).take(k + 1) =~= before.push(
                spelled_params(typed_params_view(self.args@))[k as int],
            ));
            k += 1;
        }
        assert(spelled_params(typed_params_view(self.args@)).take(self.args@.len() as int)
            =~= spelled_params(typed_params_view(self.args@)));
        let ret = match &self.ret_type {
            Some(t) => Some(String::from_str(t.to_str())),
            None => None,
        };
        let mut records: Vec<Vec<(String, WireValue)>> = Vec::new();
        let mut j: usize = 0;
        while j < self.instructions.len()
            invariant
                j <= self.instructions@.len(),
                records_view(records@) == encode_all(views_of(self.instructions@)).take(j as int),
            decreases self.instructions@.len() - j,
        {
            let ghost before = records_view(records@);
            records.push(self.instructions[j].to_wire());
            assert(records_view(records@) =~= before.push(
                encode_all(views_of(self.instructions@))[j as int],
            ));
            assert(encode_all(views_of(self.instructions@)).take(j + 1) =~= before.push(
                encode_all(views_of(self.instructions@))[j as int],
            ));
            j += 1;
        }
        assert(encode_all(views_of(self.instructions@)).take(self.instructions@.len() as int)
            =~= encode_all(views_of(self.instructions@)));
        (self.name.clone(), params, ret, records)
    }
}

proof fn lemma_params_round_trip(args: Seq<(Seq<char>, BrilType)>)
    ensures
        decode_params(spelled_params(args)) == Some(args),
    decreases args.len(),
{
    if args.len() > 0 {
        lemma_params_round_trip(args.drop_last());
        assert(spelled_params(args).drop_last() =~= spelled_params(args.drop_last()));
        assert(args.drop_last().push(args.last()) =~= args);
    } else {
        assert(spelled_params(args) =~= Seq::<(Seq<char>, Seq<char>)>::empty());
        assert(args =~= Seq::<(Seq<char>, BrilType)>::empty());
    }
}

proof fn lemma_decode_all_each(rv: Seq<Seq<(Seq<char>, WireView)>>, s: Seq<InstructionView>)
    requires
        decode_all(rv) == Ok::<Seq<InstructionView>, DecodeError>(s),
    ensures
        s.len() == rv.len(),
        forall|k: int|
            0 <= k < rv.len() ==> decode(#[trigger] rv[k]) == Ok::<InstructionView, DecodeError>(
                s[k],
            ),
    decreases rv.len(),
{
    if rv.len() > 0 {
        let done = decode_all(rv.drop_last())->Ok_0;
        lemma_decode_all_each(rv.drop_last(), done);
        assert(s == done.push(decode(rv.last())->Ok_0));
        assert forall|k: int| 0 <= k < rv.len() implies decode(#[trigger] rv[k]) == Ok::<
            InstructionView,
            DecodeError,
        >(s[k]) by {
            if k < rv.len() - 1 {
                assert(rv.drop_last()[k] == rv[k]);
            }
        }
    }
}

proof fn lemma_decode_all_encoded(s: Seq<InstructionView>)
    requires
        forall|k: int| 0 <= k < s.len() ==> decoded_form(#[trigger] s[k]),
    ensures
        decode_all(encode_all(s)) == Ok::<Seq<InstructionView>, DecodeError>(s),
    decreases s.len(),
{
    if s.len() > 0 {
        lemma_decode_all_encoded(s.drop_last());
        assert(encode_all(s).drop_last() =~= encode_all(s.drop_last()));
        lemma_encode_decodes(s.last());
        assert(s.drop_last().push(s.last()) =~= s);
    } else {
        assert(encode_all(s) =~= Seq::<Seq<(Seq<char>, WireView)>>::empty());
        assert(s =~= Seq::<InstructionView>::empty());
    }
}

/// Round trip of a function: where its parts decode to a function (each label carrying no
/// other field), the parts that function is written as decode to the same parameters, return
/// type and instructions.
pub proof fn law_function_round_trip(
    params: Seq<(Seq<char>, Seq<char>)>,
    ret_type: Seq<char>,
    records: Seq<Seq<(Seq<char>, WireView)>>,
    args: Seq<(Seq<char>, BrilType)>,
    ret: Option<BrilType>,
    instrs: Seq<InstructionView>,
)
    requires
        decode_params(params) == Some(args),
        is_type_name(ret_type),
        type_named(ret_type) == ret,
        decode_all(records) == Ok::<Seq<InstructionView>, DecodeError>(instrs),
        forall|k: int| 0 <= k < instrs.len() ==> label_alone(#[trigger] instrs[k]),
    ensures
        decode_params(spelled_params(args)) == Some(args),
        is_type_name(ret_spelling(ret).unwrap_or(Seq::empty())),
        type_named(ret_spelling(ret).unwrap_or(Seq::empty())) == ret,
        decode_all(encode_all(instrs)) == Ok::<Seq<InstructionView>, DecodeError>(instrs),
{
    law_function_header_round_trip(args, ret);
    lemma_decode_all_each(records, instrs);
    assert forall|k: int| 0 <= k < instrs.len() implies decoded_form(#[trigger] instrs[k]) by {
        assert(decode(records[k]) == Ok::<InstructionView, DecodeError>(instrs[k]));
        lemma_decoded_form(records[k], instrs[k]);
    }
    lemma_decode_all_encoded(instrs);
}

/// Encoding a function's parameters and return type and decoding them gives them back.
pub proof fn law_function_header_round_trip(args: Seq<(Seq<char>, BrilType)>, ret: Option<BrilType>)
    ensures
        decode_params(spelled_params(args)) == Some(args),
        is_type_name(ret_spelling(ret).unwrap_or(Seq::empty())),
        type_named(ret_spelling(ret).unwrap_or(Seq::empty())) == ret,
{
    lemma_params_round_trip(args);
    assert(BrilType::Bool.spec_str().len() == 4);
    assert(BrilType::Int.spec_str().len() == 3);
    assert(Seq::<char>::empty().len() == 0);
}

} // verus!
