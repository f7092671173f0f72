use mcml::assign_homes::build_interference::build_interference;
use mcml::assign_homes::build_move::MoveGraph;
use mcml::assign_homes::color_graph::color_graph;
use mcml::assign_homes::uncover_live::{uncover_live, uncover_live_before};
use mcml::assign_homes::{Location, Register};
use mcml::cfg::BlockGraph;
use mcml::select_instructions::{Block, Instruction, Op, Program};
use mcml::var::Var;
use petgraph::graph::NodeIndex;

type UnGraph = petgraph::Graph<u32, (), petgraph::Undirected, usize>;

fn graph(n: u32, edges: &[(usize, usize)]) -> UnGraph {
    let mut g = UnGraph::with_capacity(0, 0);
    for i in 0..n {
        g.add_node(i);
    }
    for &(a, b) in edges {
        g.update_edge(NodeIndex::new(a), NodeIndex::new(b), ());
    }
    g
}

fn v(id: u32) -> Var {
    Var { name: None, id }
}

#[test]
fn colors_follow_location_order() {
    let regs = [
        Register::R1, Register::R2, Register::R3, Register::R4, Register::R5, Register::R6, Register::R7, Register::R8,
        Register::E1, Register::E2, Register::E3, Register::E4, Register::E5, Register::E6, Register::E7, Register::E8,
    ];
    for (c, r) in regs.iter().enumerate() {
        assert_eq!(Location::from_color(c as u32), Location::Register(*r));
        assert_eq!(r.to_color(), c as u32);
    }
    assert_eq!(Location::from_color(16), Location::Stack { offset: 1 });
    assert_eq!(Location::from_color(40), Location::Stack { offset: 25 });
}

#[test]
fn triangle_needs_three_colors() {
    let g = graph(3, &[(0, 1), (1, 2), (0, 2)]);
    let moves = MoveGraph { graph: graph(3, &[]) };
    let colors = color_graph(&g, &moves).unwrap();
    assert_eq!(colors.len(), 3);
    assert_ne!(colors[0], colors[1]);
    assert_ne!(colors[1], colors[2]);
    assert_ne!(colors[0], colors[2]);
    assert!(colors.iter().all(|c| *c < 3));
}

#[test]
fn copies_share_a_color_when_they_can() {
    // 0 and 1 interfere; 2 is a copy of 0 and interferes with nothing.
    let g = graph(3, &[(0, 1)]);
    let moves = MoveGraph { graph: graph(3, &[(0, 2)]) };
    let colors = color_graph(&g, &moves).unwrap();
    assert_eq!(colors, vec![0, 1, 0]);
}

#[test]
fn copy_bias_yields_to_interference() {
    // 2 is a copy of 0 but interferes with it: it takes the least free color instead.
    let g = graph(3, &[(0, 1), (0, 2)]);
    let moves = MoveGraph { graph: graph(3, &[(0, 2)]) };
    let colors = color_graph(&g, &moves).unwrap();
    assert_ne!(colors[0], colors[2]);
    assert_ne!(colors[0], colors[1]);
}

#[test]
fn live_before_is_live_after_less_writes_with_reads() {
    let instr = Instruction::Operation { op: Op::PlusEquals, source: v(1), destination: v(2) };
    let mut before = uncover_live_before(&instr, &vec![2, 3]);
    before.sort();
    assert_eq!(before, vec![1, 2, 3]);
    let mv = Instruction::Operation { op: Op::Equals, source: v(1), destination: v(2) };
    let mut before = uncover_live_before(&mv, &vec![2, 3]);
    before.sort();
    assert_eq!(before, vec![1, 3]);
}

fn straight_line() -> Program {
    // x0 = 1; x1 = 2; x1 += x0; x2 = x1
    let instrs = vec![
        Instruction::SetScore { var: v(0), value: 1 },
        Instruction::SetScore { var: v(1), value: 2 },
        Instruction::Operation { op: Op::PlusEquals, source: v(0), destination: v(1) },
        Instruction::Operation { op: Op::Equals, source: v(1), destination: v(2) },
    ];
    Program { blocks: BlockGraph { nodes: vec![Block { instrs }], edges: vec![] }, tests: vec![] }
}

#[test]
fn liveness_of_a_straight_line_block() {
    let annotated = uncover_live(&straight_line()).unwrap();
    let block = &annotated.blocks[0];
    let sets: Vec<Vec<u32>> = block
        .instrs
        .iter()
        .map(|a| {
            let mut s = a.live_after.clone();
            s.sort();
            s
        })
        .collect();
    assert_eq!(sets, vec![vec![0], vec![0, 1], vec![1], vec![]]);
    assert!(block.live_before.is_empty());
}

#[test]
fn interference_of_a_straight_line_block() {
    let program = straight_line();
    let annotated = uncover_live(&program).unwrap();
    let g = build_interference(&annotated, &vec![0, 1, 2]).unwrap();
    assert!(g.contains_edge(NodeIndex::new(0), NodeIndex::new(1)));
    assert!(!g.contains_edge(NodeIndex::new(1), NodeIndex::new(2)));
    assert!(!g.contains_edge(NodeIndex::new(0), NodeIndex::new(2)));
}
