use bril_cfg::naming::make_synthetic_name;
use bril_cfg::wire::{DecodeError, WireValue};
use bril_cfg::{to_bril_type, Block, BrilType, BrilValue, Function, Instruction, InstructionType, CFG};

fn plain(op: InstructionType) -> Instruction {
    Instruction { op, dest: None, value: None, ty: None, args: None, funcs: None, labels: None }
}

fn label(name: &str) -> Instruction {
    plain(InstructionType::Label { name: name.to_string() })
}

fn konst(dest: &str, v: i64) -> Instruction {
    Instruction {
        dest: Some(dest.to_string()),
        value: Some(BrilValue::Int(v)),
        ty: Some("int".to_string()),
        ..plain(InstructionType::Const)
    }
}

fn print(arg: &str) -> Instruction {
    Instruction { args: Some(vec![arg.to_string()]), ..plain(InstructionType::Print) }
}

fn ret() -> Instruction {
    plain(InstructionType::Ret)
}

fn jump(kind: InstructionType, targets: &[&str]) -> Instruction {
    Instruction { labels: Some(targets.iter().map(|t| t.to_string()).collect()), ..plain(kind) }
}

fn function(name: &str, instructions: Vec<Instruction>) -> Function {
    Function { name: name.to_string(), args: vec![], ret_type: None, instructions }
}

fn body(cfg: &CFG, name: &str) -> Vec<String> {
    cfg.block(name).unwrap().instructions.iter().map(|i| format!("{:?}", i)).collect()
}

fn succs(cfg: &CFG, name: &str) -> Vec<String> {
    cfg.successors_of(name).unwrap().clone()
}

fn names(cfg: &CFG) -> Vec<String> {
    cfg.blocks.iter().map(|b| b.name.clone()).collect()
}

fn branching_main() -> Function {
    function(
        "main",
        vec![
            label("entry"),
            konst("x", 1),
            jump(InstructionType::Br, &["L1", "L2"]),
            label("L1"),
            print("x"),
            ret(),
            label("L2"),
            ret(),
        ],
    )
}

#[test]
fn branching_main_blocks_and_edges() {
    let cfg = CFG::from_function(&branching_main());
    assert_eq!(cfg.name, "main");
    assert_eq!(names(&cfg), vec!["entry", "L1", "L2"]);
    // Each block holds its non-label instructions, terminator included.
    assert_eq!(
        body(&cfg, "entry"),
        vec![format!("{:?}", konst("x", 1)), format!("{:?}", jump(InstructionType::Br, &["L1", "L2"]))]
    );
    assert_eq!(body(&cfg, "L1"), vec![format!("{:?}", print("x")), format!("{:?}", ret())]);
    assert_eq!(body(&cfg, "L2"), vec![format!("{:?}", ret())]);
    assert_eq!(succs(&cfg, "entry"), vec!["L1", "L2"]);
    assert!(succs(&cfg, "L1").is_empty());
    assert!(succs(&cfg, "L2").is_empty());
}

#[test]
fn branching_main_non_terminators() {
    let cfg = CFG::from_function(&branching_main());
    let kept = |name: &str| -> Vec<String> {
        cfg.block(name)
            .unwrap()
            .instructions
            .iter()
            .filter(|i| !matches!(i.op, InstructionType::Br | InstructionType::Jmp | InstructionType::Ret))
            .map(|i| format!("{:?}", i))
            .collect()
    };
    assert_eq!(kept("entry"), vec![format!("{:?}", konst("x", 1))]);
    assert_eq!(kept("L1"), vec![format!("{:?}", print("x"))]);
    assert!(kept("L2").is_empty());
}

#[test]
fn unlabelled_jump_gives_synthetic_block() {
    let f = function("f", vec![konst("a", 3), jump(InstructionType::Jmp, &["missing"])]);
    let cfg = CFG::from_function(&f);
    assert_eq!(names(&cfg), vec!["anon_block_1"]);
    assert_eq!(succs(&cfg, "anon_block_1"), vec!["missing"]);
    assert!(cfg.block("missing").is_none());
    assert!(cfg.block_index("missing").is_none());
    assert!(cfg.successors_of("missing").is_none());
}

#[test]
fn empty_function_has_no_blocks() {
    let cfg = CFG::from_function(&function("empty", vec![]));
    assert!(cfg.blocks.is_empty());
    assert!(cfg.graph.is_empty());
}

#[test]
fn consecutive_labels_keep_empty_block() {
    let f = function("f", vec![label("a"), label("b"), ret()]);
    let cfg = CFG::from_function(&f);
    assert_eq!(names(&cfg), vec!["a", "b"]);
    assert!(body(&cfg, "a").is_empty());
    assert!(succs(&cfg, "a").is_empty());
    assert_eq!(body(&cfg, "b").len(), 1);
}

#[test]
fn repeated_label_reopens_block() {
    let f = function(
        "f",
        vec![label("a"), print("x"), jump(InstructionType::Jmp, &["b"]), label("b"), print("y"), label("a"), print("z"), jump(InstructionType::Jmp, &["b"])],
    );
    let cfg = CFG::from_function(&f);
    assert_eq!(names(&cfg), vec!["a", "b"]);
    assert_eq!(body(&cfg, "a").len(), 4);
    assert_eq!(body(&cfg, "a")[2], format!("{:?}", print("z")));
    assert_eq!(succs(&cfg, "a"), vec!["b", "b"]);
    assert!(succs(&cfg, "b").is_empty());
    assert_eq!(cfg.block_index("b"), Some(1));
}

#[test]
fn synthetic_names_count_runs() {
    let f = function("f", vec![print("a"), ret(), print("b"), ret(), label("l"), print("c"), ret(), print("d")]);
    let cfg = CFG::from_function(&f);
    assert_eq!(names(&cfg), vec!["anon_block_1", "anon_block_2", "l", "anon_block_3"]);
    // One block per label plus one per run that starts with no block open.
    assert_eq!(cfg.blocks.len(), 1 + 3);
    assert_eq!(cfg.graph.len(), cfg.blocks.len());
    assert!(succs(&cfg, "anon_block_3").is_empty());
}

#[test]
fn synthetic_name_uses_decimal_counter() {
    assert_eq!(make_synthetic_name(1), "anon_block_1");
    assert_eq!(make_synthetic_name(10), "anon_block_10");
    assert_eq!(make_synthetic_name(407), "anon_block_407");
}

#[test]
fn eleven_runs_reach_two_digit_names() {
    let mut instrs = vec![];
    for _ in 0..11 {
        instrs.push(ret());
    }
    let cfg = CFG::from_function(&function("f", instrs));
    assert_eq!(cfg.blocks.len(), 11);
    assert_eq!(cfg.blocks[10].name, "anon_block_11");
}

#[test]
fn branch_successors_keep_label_order() {
    let f = function("f", vec![label("top"), jump(InstructionType::Br, &["no", "yes"])]);
    let cfg = CFG::from_function(&f);
    assert_eq!(succs(&cfg, "top"), vec!["no", "yes"]);
}

#[test]
fn coverage_concatenates_to_unlabelled_body() {
    let f = branching_main();
    let cfg = CFG::from_function(&f);
    let joined: Vec<String> =
        cfg.blocks.iter().flat_map(|b| b.instructions.iter().map(|i| format!("{:?}", i))).collect();
    let expected: Vec<String> = f
        .instructions
        .iter()
        .filter(|i| !matches!(i.op, InstructionType::Label { .. }))
        .map(|i| format!("{:?}", i))
        .collect();
    assert_eq!(joined, expected);
}

#[test]
fn rebuilding_gives_same_graph() {
    let f = branching_main();
    let a = CFG::from_function(&f);
    let b = CFG::from_function(&f);
    assert_eq!(names(&a), names(&b));
    assert_eq!(a.graph, b.graph);
    assert_eq!(a.to_string(), b.to_string());
}

#[test]
fn cfg_text_lists_edges_and_sinks() {
    let cfg = CFG::from_function(&branching_main());
    assert_eq!(cfg.to_string(), "CFG(main) {\n\tentry(2) -> L1\n\tentry(2) -> L2\n\tL1(2)\n\tL2(1)\n}");
}

#[test]
fn block_new_and_push() {
    let mut b = Block::new("b".to_string());
    assert_eq!(b.to_string(), "b(0)");
    b.push(ret());
    b.push(print("x"));
    assert_eq!(b.name, "b");
    assert_eq!(b.instructions.len(), 2);
    assert_eq!(b.to_string(), "b(2)");
}

#[test]
fn type_names_round_trip() {
    assert_eq!(BrilType::Bool.to_str(), "bool");
    assert_eq!(BrilType::Int.to_str(), "int");
    assert_eq!(to_bril_type("bool"), Some(BrilType::Bool));
    assert_eq!(to_bril_type("int"), Some(BrilType::Int));
    assert_eq!(to_bril_type(""), None);
    assert_eq!(to_bril_type(BrilType::Int.to_str()), Some(BrilType::Int));
}

#[test]
fn op_names_round_trip() {
    for name in ["call", "const", "print", "ret", "br", "jmp", "add", "id"] {
        let t = InstructionType::from_op(name);
        assert_eq!(t.op_name(), name);
    }
    assert!(matches!(InstructionType::from_op("br"), InstructionType::Br));
    assert!(matches!(InstructionType::from_op("add"), InstructionType::Unknown { ref op } if op == "add"));
}

#[test]
fn clone_keeps_every_field() {
    let i = Instruction { funcs: Some(vec!["g".to_string()]), ..konst("x", -4) };
    assert_eq!(format!("{:?}", i.clone()), format!("{:?}", i));
}

fn field(key: &str, value: WireValue) -> (String, WireValue) {
    (key.to_string(), value)
}

#[test]
fn const_record_round_trips() {
    let i = konst("x", -7);
    let fields = i.to_wire();
    let keys: Vec<&str> = fields.iter().map(|f| f.0.as_str()).collect();
    assert_eq!(keys, vec!["dest", "type", "value", "op"]);
    let back = Instruction::from_wire(&fields).unwrap();
    assert_eq!(format!("{:?}", back), format!("{:?}", i));
}

#[test]
fn label_record_has_label_field_only() {
    let fields = label("top").to_wire();
    assert_eq!(fields.len(), 1);
    assert_eq!(fields[0].0, "label");
    assert!(matches!(&fields[0].1, WireValue::Text(s) if s == "top"));
    let back = Instruction::from_wire(&fields).unwrap();
    assert!(matches!(back.op, InstructionType::Label { ref name } if name == "top"));
}

#[test]
fn branch_record_keeps_labels() {
    let i = jump(InstructionType::Br, &["t", "f"]);
    let fields = i.to_wire();
    assert_eq!(fields[0].0, "labels");
    assert!(matches!(&fields[0].1, WireValue::Names(v) if v == &vec!["t".to_string(), "f".to_string()]));
    assert!(matches!(&fields[1].1, WireValue::Text(s) if s == "br"));
    assert_eq!(format!("{:?}", Instruction::from_wire(&fields).unwrap()), format!("{:?}", i));
}

#[test]
fn unknown_op_is_kept() {
    let fields = vec![field("op", WireValue::Text("add".to_string())), field("args", WireValue::Names(vec!["a".to_string(), "b".to_string()]))];
    let i = Instruction::from_wire(&fields).unwrap();
    assert!(matches!(i.op, InstructionType::Unknown { ref op } if op == "add"));
    assert_eq!(i.args, Some(vec!["a".to_string(), "b".to_string()]));
    assert_eq!(i.to_wire().last().unwrap().0, "op");
}

#[test]
fn decode_errors() {
    let no_op = vec![field("dest", WireValue::Text("x".to_string()))];
    assert_eq!(Instruction::from_wire(&no_op).unwrap_err(), DecodeError::MissingOp);
    let untyped = vec![field("op", WireValue::Text("const".to_string())), field("value", WireValue::Int(1))];
    assert_eq!(Instruction::from_wire(&untyped).unwrap_err(), DecodeError::UntypedValue);
    let odd_type = vec![
        field("op", WireValue::Text("const".to_string())),
        field("type", WireValue::Text("float".to_string())),
        field("value", WireValue::Int(1)),
    ];
    assert_eq!(Instruction::from_wire(&odd_type).unwrap_err(), DecodeError::UnknownValueType);
    let mismatch = vec![
        field("op", WireValue::Text("const".to_string())),
        field("type", WireValue::Text("bool".to_string())),
        field("value", WireValue::Int(1)),
    ];
    assert_eq!(Instruction::from_wire(&mismatch).unwrap_err(), DecodeError::ValueMismatch);
    let op_not_text = vec![field("op", WireValue::Other), field("label", WireValue::Text("l".to_string()))];
    assert!(matches!(Instruction::from_wire(&op_not_text).unwrap().op, InstructionType::Label { .. }));
}

#[test]
fn bool_const_decodes() {
    let fields = vec![
        field("op", WireValue::Text("const".to_string())),
        field("dest", WireValue::Text("b".to_string())),
        field("type", WireValue::Text("bool".to_string())),
        field("value", WireValue::Bool(true)),
    ];
    let i = Instruction::from_wire(&fields).unwrap();
    assert_eq!(i.value, Some(BrilValue::Bool(true)));
    assert_eq!(i.dest, Some("b".to_string()));
    assert_eq!(i.ty, Some("bool".to_string()));
}

#[test]
fn instruction_text_names_fields() {
    assert_eq!(label("entry").to_string(), "Label(entry)");
    assert_eq!(konst("x", -12).to_string(), "Const(dest: x, value: Int(-12), type: int)");
    assert_eq!(jump(InstructionType::Br, &["a", "b"]).to_string(), "Br(labels: [a, b])");
    assert_eq!(ret().to_string(), "Ret()");
    let call = Instruction { funcs: Some(vec!["f".to_string()]), args: Some(vec![]), ..plain(InstructionType::Call) };
    assert_eq!(call.to_string(), "Call(args: [], funcs: [f])");
    let add = Instruction { dest: Some("s".to_string()), ..plain(InstructionType::Unknown { op: "add".to_string() }) };
    assert_eq!(add.to_string(), "Unknown { op: \"add\" }(dest: s)");
    let b = Instruction { value: Some(BrilValue::Bool(false)), ..plain(InstructionType::Const) };
    assert_eq!(b.to_string(), "Const(value: Bool(false))");
}

#[test]
fn function_record_decodes() {
    let params = vec![("n".to_string(), "int".to_string()), ("flag".to_string(), "bool".to_string())];
    let records = vec![
        label("top").to_wire(),
        konst("x", 2).to_wire(),
        jump(InstructionType::Jmp, &["top"]).to_wire(),
    ];
    let f = Function::from_wire("loop".to_string(), &params, "int", &records).unwrap();
    assert_eq!(f.name, "loop");
    assert_eq!(f.args, vec![("n".to_string(), BrilType::Int), ("flag".to_string(), BrilType::Bool)]);
    assert_eq!(f.ret_type, Some(BrilType::Int));
    assert_eq!(f.instructions.len(), 3);
    let none = Function::from_wire("g".to_string(), &vec![], "", &vec![]).unwrap();
    assert_eq!(none.ret_type, None);
}

#[test]
fn function_record_errors() {
    let bad_param = vec![("n".to_string(), "".to_string())];
    assert_eq!(Function::from_wire("f".to_string(), &bad_param, "", &vec![]).unwrap_err(), DecodeError::UnknownType);
    assert_eq!(Function::from_wire("f".to_string(), &vec![], "float", &vec![]).unwrap_err(), DecodeError::UnknownType);
    let records = vec![ret().to_wire(), vec![field("dest", WireValue::Text("x".to_string()))]];
    assert_eq!(Function::from_wire("f".to_string(), &vec![], "", &records).unwrap_err(), DecodeError::MissingOp);
}

#[test]
fn function_record_round_trips() {
    let f = Function {
        name: "loop".to_string(),
        args: vec![("n".to_string(), BrilType::Int), ("flag".to_string(), BrilType::Bool)],
        ret_type: Some(BrilType::Bool),
        instructions: vec![label("top"), konst("x", 5), jump(InstructionType::Br, &["top", "out"])],
    };
    let (name, params, ret_type, records) = f.to_wire();
    assert_eq!(name, "loop");
    assert_eq!(params, vec![("n".to_string(), "int".to_string()), ("flag".to_string(), "bool".to_string())]);
    assert_eq!(ret_type, Some("bool".to_string()));
    assert_eq!(records.len(), 3);
    assert_eq!(records[0].len(), 1);
    let back = Function::from_wire(name, &params, ret_type.as_deref().unwrap_or(""), &records).unwrap();
    assert_eq!(back.args, f.args);
    assert_eq!(back.ret_type, f.ret_type);
    assert_eq!(format!("{:?}", back.instructions), format!("{:?}", f.instructions));
}

#[test]
fn function_without_return_type_omits_it() {
    let f = function("main", vec![ret()]);
    let (_, params, ret_type, records) = f.to_wire();
    assert!(params.is_empty());
    assert_eq!(ret_type, None);
    assert_eq!(records[0].len(), 1);
    assert_eq!(records[0][0].0, "op");
}
