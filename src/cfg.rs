use vstd::prelude::*;
use crate::naming::{decimal, decimal_string, make_synthetic_name, synthetic_name};
use vstd::string::*;
use crate::parsing::same_text;
use crate::types::{Function, Instruction, InstructionType, InstructionView, OpView};

verus! {

/// A basic block: a name and a straight run of instructions, labels left out.
pub struct Block {
    pub name: String,
    pub instructions: Vec<Instruction>,
}

/// The views of a sequence of instructions.
pub open spec fn views_of(v: Seq<Instruction>) -> Seq<InstructionView> {
    v.map_values(|i: Instruction| i@)
}

impl Block {
    /// The block's instructions, as views.
    pub open spec fn body(&self) -> Seq<InstructionView> {
        views_of(self.instructions@)
    }

    /// The block's diagnostic text: its name and, in parentheses, its instruction count.
    pub open spec fn text(&self) -> Seq<char> {
        self.name@ + seq!['('] + decimal(self.instructions@.len()) + seq![')']
    }

    pub fn to_string(&self) -> (r: String)
        ensures
            r@ == self.text(),
    {
        proof {
            reveal_strlit("(");
            reveal_strlit(")");
        }
        let mut out = self.name.clone();
        out.append("(");
        let digits = decimal_string(self.instructions.len());
        out.append(digits.as_str());
        out.append(")");
        assert(out@ =~= self.text());
        out
    }

    pub fn new(name: String) -> (r: Block)
        ensures
            r.name == name,
            r.instructions@.len() == 0,
    {
        Block { name: name, instructions: Vec::new() }
    }

    pub fn push(&mut self, x: Instruction)
        ensures
            final(self).name == old(self).name,
            final(self).body() == old(self).body().push(x@),
    {
        self.instructions.push(x);
        assert(self.body() =~= old(self).body().push(x@));
    }
}

/// What the single pass over a function's body has built so far.
///
/// `names[b]`, `bodies[b]` and `succs[b]` describe the `b`-th block in the order blocks
/// were first opened; `open` is the index of the block that is currently open, and
/// `counter` the number of synthetic names minted.
pub struct PassState {
    pub names: Seq<Seq<char>>,
    pub bodies: Seq<Seq<InstructionView>>,
    pub succs: Seq<Seq<Seq<char>>>,
    pub open: Option<int>,
    pub counter: nat,
}

/// The index of the last block called `name`, or -1 where there is none.
pub open spec fn position(names: Seq<Seq<char>>, name: Seq<char>) -> int
    decreases names.len(),
{
    if names.len() == 0 {
        -1
    } else if names.last() == name {
        names.len() - 1
    } else {
        position(names.drop_last(), name)
    }
}

/// No two entries are equal.
pub open spec fn all_distinct(names: Seq<Seq<char>>) -> bool {
    forall|a: int, b: int| 0 <= a < b < names.len() ==> names[a] != names[b]
}

pub open spec fn start_state() -> PassState {
    PassState {
        names: Seq::empty(),
        bodies: Seq::empty(),
        succs: Seq::empty(),
        open: None,
        counter: 0,
    }
}

/// Opens the block called `name`: re-opens it where it exists, else adds it, empty and
/// without successors.
pub open spec fn open_block(s: PassState, name: Seq<char>, counter: nat) -> PassState {
    let p = position(s.names, name);
    if p >= 0 {
        PassState { names: s.names, bodies: s.bodies, succs: s.succs, open: Some(p), counter }
    } else {
        PassState {
            names: s.names.push(name),
            bodies: s.bodies.push(Seq::empty()),
            succs: s.succs.push(Seq::empty()),
            open: Some(s.names.len() as int),
            counter,
        }
    }
}

/// The state once the block that `i` belongs to is open: a label opens its own block, and
/// an instruction that finds no open block opens one under the next synthetic name.
pub open spec fn entered(s: PassState, i: InstructionView) -> PassState {
    match i.op {
        OpView::Label(name) => open_block(s, name, s.counter),
        _ => if s.open is None {
            open_block(s, synthetic_name(s.counter + 1), s.counter + 1)
        } else {
            s
        },
    }
}

/// One step of the pass: `i` joins the open block unless it is a label, and a terminator
/// adds its labels to that block's successors and closes it.
pub open spec fn step(s: PassState, i: InstructionView) -> PassState {
    let e = entered(s, i);
    let b = e.open->0;
    let bodies = if i.is_label() {
        e.bodies
    } else {
        e.bodies.update(b, e.bodies[b].push(i))
    };
    if i.is_terminator() {
        PassState {
            names: e.names,
            bodies,
            succs: e.succs.update(b, e.succs[b] + i.targets()),
            open: None,
            counter: e.counter,
        }
    } else {
        PassState { names: e.names, bodies, succs: e.succs, open: e.open, counter: e.counter }
    }
}

/// The state after the pass over `instrs`, left to right.
pub open spec fn pass(instrs: Seq<InstructionView>) -> PassState
    decreases instrs.len(),
{
    if instrs.len() == 0 {
        start_state()
    } else {
        step(pass(instrs.drop_last()), instrs.last())
    }
}

/// The shape that every state of the pass has.
pub open spec fn well_formed(s: PassState) -> bool {
    &&& s.bodies.len() == s.names.len()
    &&& s.succs.len() == s.names.len()
    &&& all_distinct(s.names)
    &&& (s.open matches Some(b) ==> 0 <= b < s.names.len())
}

pub proof fn lemma_position(names: Seq<Seq<char>>, name: Seq<char>)
    ensures
        -1 <= position(names, name) < names.len(),
        position(names, name) >= 0 ==> names[position(names, name)] == name,
        position(names, name) == -1 ==> forall|k: int| 0 <= k < names.len() ==> names[k] != name,
        all_distinct(names) ==> forall|k: int|
            0 <= k < names.len() && names[k] == name ==> position(names, name) == k,
    decreases names.len(),
{
    if names.len() > 0 {
        lemma_position(names.drop_last(), name);
        assert forall|k: int| 0 <= k < names.len() - 1 implies names.drop_last()[k] == names[k] by {}
    }
}

pub proof fn lemma_step_well_formed(s: PassState, i: InstructionView)
    requires
        well_formed(s),
    ensures
        well_formed(step(s, i)),
        entered(s, i).open is Some,
        well_formed(entered(s, i)),
{
    lemma_position(s.names, synthetic_name(s.counter + 1));
    if let OpView::Label(name) = i.op {
        lemma_position(s.names, name);
    }
}

pub proof fn lemma_pass_well_formed(instrs: Seq<InstructionView>)
    ensures
        well_formed(pass(instrs)),
    decreases instrs.len(),
{
    if instrs.len() > 0 {
        lemma_pass_well_formed(instrs.drop_last());
        lemma_step_well_formed(pass(instrs.drop_last()), instrs.last());
    }
}

/// The control-flow graph of one function: its blocks, in the order they were first
/// opened, and the successors of each, `graph[b]` belonging to `blocks[b]`.
pub struct CFG {
    pub name: String,
    pub graph: Vec<Vec<String>>,
    pub blocks: Vec<Block>,
}

pub open spec fn names_of(blocks: Seq<Block>) -> Seq<Seq<char>> {
    blocks.map_values(|b: Block| b.name@)
}

pub open spec fn bodies_of(blocks: Seq<Block>) -> Seq<Seq<InstructionView>> {
    blocks.map_values(|b: Block| b.body())
}

pub open spec fn succs_of(graph: Seq<Vec<String>>) -> Seq<Seq<Seq<char>>> {
    graph.map_values(|v: Vec<String>| v@.map_values(|s: String| s@))
}

/// The diagnostic lines of one block: the block alone where it has no successor, else one
/// line for each successor.
pub open spec fn block_lines(text: Seq<char>, succs: Seq<Seq<char>>) -> Seq<Seq<char>> {
    if succs.len() == 0 {
        seq![seq!['\t'] + text]
    } else {
        succs.map_values(|x: Seq<char>| seq!['\t'] + text + seq![' ', '-', '>', ' '] + x)
    }
}

/// The diagnostic lines of the first `n` blocks.
pub open spec fn graph_lines(blocks: Seq<Block>, succs: Seq<Seq<Seq<char>>>, n: int) -> Seq<
    Seq<char>,
>
    decreases n,
{
    if n <= 0 {
        Seq::empty()
    } else {
        graph_lines(blocks, succs, n - 1) + block_lines(blocks[n - 1].text(), succs[n - 1])
    }
}

/// The lines one after the other, each pair separated by a line break.
pub open spec fn join_lines(lines: Seq<Seq<char>>) -> Seq<char>
    decreases lines.len(),
{
    if lines.len() == 0 {
        Seq::empty()
    } else if lines.len() == 1 {
        lines[0]
    } else {
        join_lines(lines.drop_last()) + seq!['\n'] + lines.last()
    }
}

/// Appends `line` to `out`, after a line break unless it is the first.
fn push_line(out: &mut String, first: bool, line: &String)
    ensures
        final(out)@ == if first {
            old(out)@ + line@
        } else {
            old(out)@ + seq!['\n'] + line@
        },
{
    proof {
        reveal_strlit("\n");
    }
    if !first {
        out.append("\n");
    }
    out.append(line.as_str());
}

/// Finds the first block called `name`.
fn find_block(blocks: &Vec<Block>, name: &str) -> (r: Option<usize>)
    ensures
        match r {
            Some(j) => j < blocks@.len() && names_of(blocks@)[j as int] == name@ && forall|k: int|
                0 <= k < j ==> names_of(blocks@)[k] != name@,
            None => forall|k: int| 0 <= k < blocks@.len() ==> names_of(blocks@)[k] != name@,
        },
{
    let mut j: usize = 0;
    while j < blocks.len()
        invariant
            j <= blocks@.len(),
            forall|k: int| 0 <= k < j ==> names_of(blocks@)[k] != name@,
        decreases blocks@.len() - j,
    {
        assert(names_of(blocks@)[j as int] == blocks@[j as int].name@);
        if same_text(blocks[j].name.as_str(), name) {
            return Some(j);
        }
        j += 1;
    }
    None
}

/// Appends copies of `src` to `dst`.
fn append_names(dst: &mut Vec<String>, src: &Vec<String>)
    ensures
        final(dst)@ == old(dst)@ + src@,
{
    let mut k: usize = 0;
    while k < src.len()
        invariant
            k <= src@.len(),
            dst@ == old(dst)@ + src@.subrange(0, k as int),
        decreases src@.len() - k,
    {
        dst.push(src[k].clone());
        k += 1;
        assert(dst@ =~= old(dst)@ + src@.subrange(0, k as int));
    }
    assert(src@.subrange(0, src@.len() as int) =~= src@);
}

impl CFG {
    /// Partitions `function`'s body into basic blocks and records the successors of each,
    /// in one pass from left to right.
    pub fn from_function(function: &Function) -> (r: CFG)
        ensures
            r.name == function.name,
            r.holds(pass(views_of(function.instructions@))),
            r.graph@.len() == r.blocks@.len(),
            all_distinct(r.block_names()),
    {
        let ghost body = views_of(function.instructions@);
        let mut block_idx: usize = 0;
        let mut graph: Vec<Vec<String>> = Vec::new();
        let mut blocks: Vec<Block> = Vec::new();
        let mut cur: Option<usize> = None;
        let n = function.instructions.len();
        let mut i: usize = 0;
        assert(body.take(0) =~= Seq::<InstructionView>::empty());
        assert(names_of(blocks@) =~= Seq::<Seq<char>>::empty());
        assert(bodies_of(blocks@) =~= Seq::<Seq<InstructionView>>::empty());
        assert(succs_of(graph@) =~= Seq::<Seq<Seq<char>>>::empty());
        while i < n
            invariant
                n == function.instructions@.len(),
                body == views_of(function.instructions@),
                i <= n,
                block_idx <= i,
                well_formed(pass(body.take(i as int))),
                names_of(blocks@) == pass(body.take(i as int)).names,
                bodies_of(blocks@) == pass(body.take(i as int)).bodies,
                succs_of(graph@) == pass(body.take(i as int)).succs,
                block_idx as nat == pass(body.take(i as int)).counter,
                match cur {
                    Some(b) => pass(body.take(i as int)).open == Some(b as int),
                    None => pass(body.take(i as int)).open is None,
                },
            decreases n - i,
        {
            let instr = &function.instructions[i];
            let ghost s = pass(body.take(i as int));
            let ghost iv = instr@;
            proof {
                assert(body.take(i + 1).drop_last() =~= body.take(i as int));
                assert(body.take(i + 1).last() == iv);
                lemma_pass_well_formed(body.take(i + 1));
                lemma_step_well_formed(s, iv);
            }
            let ghost e = entered(s, iv);
            let is_label = match &instr.op {
                InstructionType::Label { .. } => true,
                _ => false,
            };
            let is_terminator = match &instr.op {
                InstructionType::Ret | InstructionType::Jmp | InstructionType::Br => true,
                _ => false,
            };
            if is_label || cur.is_none() {
                let name = match &instr.op {
                    InstructionType::Label { name } => name.clone(),
                    _ => {
                        block_idx += 1;
                        make_synthetic_name(block_idx)
                    },
                };
                let found = find_block(&blocks, name.as_str());
                proof {
                    lemma_position(names_of(blocks@), name@);
                }
                match found {
                    Some(j) => {
                        cur = Some(j);
                    },
                    None => {
                        blocks.push(Block::new(name));
                        graph.push(Vec::new());
                        cur = Some(blocks.len() - 1);
                        proof {
                            let nb = blocks@.last();
                            assert(nb.body() =~= Seq::<InstructionView>::empty());
                            assert(graph@.last()@.map_values(|s: String| s@) =~= Seq::<Seq<char>>::empty());
                            assert(names_of(blocks@) =~= s.names.push(name@));
                            assert(bodies_of(blocks@) =~= s.bodies.push(Seq::empty()));
                            assert(succs_of(graph@) =~= s.succs.push(Seq::empty()));
                        }
                    },
                }
            }
            assert(names_of(blocks@) == e.names);
            assert(bodies_of(blocks@) == e.bodies);
            assert(succs_of(graph@) == e.succs);
            assert(block_idx as nat == e.counter);
            let b = match cur {
                Some(b) => b,
                None => 0,
            };
            assert(e.open == Some(b as int));
            if !is_label {
                let ghost before = blocks@;
                blocks[b].push(instr.clone());
                proof {
                    assert(names_of(blocks@) =~= names_of(before));
                    assert(bodies_of(blocks@) =~= e.bodies.update(b as int, e.bodies[b as int].push(iv)));
                }
            }
            if is_terminator {
                let ghost before = graph@;
                match &instr.labels {
                    Some(ls) => {
                        append_names(&mut graph[b], ls);
                        assert(graph@[b as int]@.map_values(|s: String| s@) =~= e.succs[b as int]
                            + iv.targets());
                    },
                    None => {
                        assert(e.succs[b as int] + iv.targets() =~= e.succs[b as int]);
                    },
                }
                cur = None;
                proof {
                    assert(succs_of(graph@) =~= e.succs.update(b as int, e.succs[b as int] + iv.targets()));
                }
            }
            i += 1;
        }
        assert(body.take(n as int) =~= body);
        assert(succs_of(graph@).len() == graph@.len());
        CFG { name: function.name.clone(), graph, blocks }
    }

    /// The index of the first block called `name`.
    pub fn block_index(&self, name: &str) -> (r: Option<usize>)
        ensures
            match r {
                Some(j) => j < self.blocks@.len() && self.block_names()[j as int] == name@
                    && forall|k: int| 0 <= k < j ==> self.block_names()[k] != name@,
                None => !self.block_names().contains(name@),
            },
    {
        find_block(&self.blocks, name)
    }

    /// The block called `name`, if there is one.
    pub fn block(&self, name: &str) -> (r: Option<&Block>)
        ensures
            match r {
                Some(b) => b.name@ == name@ && exists|j: int|
                    0 <= j < self.blocks@.len() && self.blocks@[j] == *b,
                None => !self.block_names().contains(name@),
            },
    {
        match find_block(&self.blocks, name) {
            Some(j) => Some(&self.blocks[j]),
            None => None,
        }
    }

    /// The successors of the first block called `name`, if there is one.
    pub fn successors_of(&self, name: &str) -> (r: Option<&Vec<String>>)
        ensures
            match r {
                Some(v) => exists|j: int|
                    0 <= j < self.blocks@.len() && j < self.graph@.len() && self.block_names()[j]
                        == name@ && self.graph@[j] == *v,
                None => !self.block_names().contains(name@) || self.graph@.len()
                    < self.blocks@.len(),
            },
    {
        match find_block(&self.blocks, name) {
            Some(j) => if j < self.graph.len() {
                assert(self.block_names()[j as int] == name@);
                Some(&self.graph[j])
            } else {
                None
            },
            None => None,
        }
    }

    /// The diagnostic text: `CFG(<name>) {`, one line for each edge or sink block, and `}`.
    pub open spec fn text(&self) -> Seq<char> {
        seq!['C', 'F', 'G', '('] + self.name@ + seq![')', ' ', '{', '\n'] + join_lines(
            graph_lines(self.blocks@, self.successors(), self.blocks@.len() as int),
        ) + seq!['\n', '}']
    }

    pub fn to_string(&self) -> (r: String)
        requires
            self.graph@.len() == self.blocks@.len(),
        ensures
            r@ == self.text(),
    {
        proof {
            reveal_strlit("CFG(");
            reveal_strlit(") {\n");
            reveal_strlit("\n}");
            reveal_strlit("\t");
            reveal_strlit(" -> ");
        }
        let mut out = String::from_str("CFG(");
        out.append(self.name.as_str());
        out.append(") {\n");
        let ghost head = out@;
        let mut b: usize = 0;
        let mut first = true;
        assert(join_lines(graph_lines(self.blocks@, self.successors(), 0)) =~= Seq::<char>::empty());
        while b < self.blocks.len()
            invariant
                self.graph@.len() == self.blocks@.len(),
                b <= self.blocks@.len(),
                first == (graph_lines(self.blocks@, self.successors(), b as int).len() == 0),
                out@ == head + join_lines(graph_lines(self.blocks@, self.successors(), b as int)),
            decreases self.blocks@.len() - b,
        {
            let bt = self.blocks[b].to_string();
            let succs = &self.graph[b];
            let ghost done = graph_lines(self.blocks@, self.successors(), b as int);
            let ghost ss = self.successors()[b as int];
            assert(ss == succs@.map_values(|x: String| x@));
            if succs.len() == 0 {
                proof {
                    reveal_strlit("\t");
                }
                assert("\t"@ =~= seq!['\t']);
                let mut line = String::from_str("\t");
                line.append(bt.as_str());
                assert(ss.len() == 0);
                push_line(&mut out, first, &line);
                first = false;
                assert(block_lines(bt@, ss) =~= seq![line@]);
                assert(done + seq![line@] =~= (done + seq![line@]).drop_last() + seq![line@]);
                assert((done + seq![line@]).drop_last() =~= done);
            } else {
                let mut k: usize = 0;
                while k < succs.len()
                    invariant
                        self.graph@.len() == self.blocks@.len(),
                        b < self.blocks@.len(),
                        *succs == self.graph@[b as int],
                        ss == succs@.map_values(|x: String| x@),
                        bt@ == self.blocks@[b as int].text(),
                        k <= succs@.len(),
                        first == ((done + block_lines(bt@, ss).take(k as int)).len() == 0),
                        out@ == head + join_lines(done + block_lines(bt@, ss).take(k as int)),
                    decreases succs@.len() - k,
                {
                    proof {
                        reveal_strlit("\t");
                        reveal_strlit(" -> ");
                    }
                    assert("\t"@ =~= seq!['\t']);
                    assert(" -> "@ =~= seq![' ', '-', '>', ' ']);
                    let mut line = String::from_str("\t");
                    line.append(bt.as_str());
                    line.append(" -> ");
                    line.append(succs[k].as_str());
                    let ghost before = done + block_lines(bt@, ss).take(k as int);
                    push_line(&mut out, first, &line);
                    first = false;
                    proof {
                        let after = done + block_lines(bt@, ss).take(k + 1);
                        assert(block_lines(bt@, ss)[k as int] == line@);
                        assert(after =~= before.push(line@));
                        assert(after.drop_last() =~= before);
                        if before.len() == 0 {
                            assert(join_lines(after) == after[0]);
                        }
                    }
                    k += 1;
                }
                assert(block_lines(bt@, ss).take(succs@.len() as int) =~= block_lines(bt@, ss));
            }
            b += 1;
        }
        out.append("\n}");
        assert(out@ =~= self.text());
        out
    }

    /// The block names, in the order the blocks were first opened.
    pub open spec fn block_names(&self) -> Seq<Seq<char>> {
        names_of(self.blocks@)
    }

    /// The instructions of each block.
    pub open spec fn block_bodies(&self) -> Seq<Seq<InstructionView>> {
        bodies_of(self.blocks@)
    }

    /// The successor names of each block.
    pub open spec fn successors(&self) -> Seq<Seq<Seq<char>>> {
        succs_of(self.graph@)
    }

    /// The graph holds exactly the blocks and successors of the finished pass `s`.
    pub open spec fn holds(&self, s: PassState) -> bool {
        &&& self.block_names() == s.names
        &&& self.block_bodies() == s.bodies
        &&& self.successors() == s.succs
    }
}

} // verus!
