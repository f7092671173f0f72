use mcml::assign_homes::{self as homes, Register};
use mcml::cfg::{BlockGraph, Edge};
use mcml::insert_jmps::{self as jumped, insert_jmps, Run};
use mcml::reify_locations::{reify_location_instr, Instruction, Location};
use mcml::select_instructions::Op;

fn stack(offset: u32) -> homes::Location {
    homes::Location::Stack { offset }
}

fn reg(r: Register) -> homes::Location {
    homes::Location::Register(r)
}

fn reified(i: jumped::Instruction) -> Vec<Instruction> {
    let mut out = Vec::new();
    reify_location_instr(&mut out, i);
    out
}

#[test]
fn stack_to_stack_goes_through_scratch() {
    let out = reified(jumped::Instruction::Operation { op: Op::PlusEquals, source: stack(1), destination: stack(2) });
    assert_eq!(
        out,
        vec![
            Instruction::Pop { offset: 1 },
            Instruction::Operation { op: Op::Equals, source: Location::StackItem, destination: Location::Scratch },
            Instruction::Pop { offset: 2 },
            Instruction::Operation { op: Op::PlusEquals, source: Location::Scratch, destination: Location::StackItem },
            Instruction::Push { offset: 2 },
        ]
    );
}

#[test]
fn stack_operands_are_popped_and_pushed() {
    assert_eq!(
        reified(jumped::Instruction::SetScore { location: stack(3), value: 7 }),
        vec![Instruction::SetScore { location: Location::StackItem, value: 7 }, Instruction::Push { offset: 3 }]
    );
    assert_eq!(
        reified(jumped::Instruction::Operation { op: Op::MinusEquals, source: stack(4), destination: reg(Register::R2) }),
        vec![
            Instruction::Pop { offset: 4 },
            Instruction::Operation {
                op: Op::MinusEquals,
                source: Location::StackItem,
                destination: Location::Register(Register::R2)
            },
        ]
    );
    assert_eq!(
        reified(jumped::Instruction::Operation { op: Op::TimesEquals, source: reg(Register::E1), destination: stack(5) }),
        vec![
            Instruction::Pop { offset: 5 },
            Instruction::Operation {
                op: Op::TimesEquals,
                source: Location::Register(Register::E1),
                destination: Location::StackItem
            },
            Instruction::Push { offset: 5 },
        ]
    );
}

#[test]
fn self_copy_is_dropped() {
    assert!(reified(jumped::Instruction::Operation { op: Op::Equals, source: stack(2), destination: stack(2) }).is_empty());
    assert!(reified(jumped::Instruction::Operation {
        op: Op::Equals,
        source: reg(Register::R1),
        destination: reg(Register::R1)
    })
    .is_empty());
}

#[test]
fn guarded_set_on_the_stack() {
    let out = reified(jumped::Instruction::ExecuteIfScoreMatches {
        location: stack(1),
        value: 3,
        run: Run::SetScore { location: stack(2), value: 1 },
    });
    assert_eq!(
        out,
        vec![
            Instruction::Pop { offset: 1 },
            Instruction::ExecuteIfScoreMatches {
                location: Location::StackItem,
                value: 3,
                run: mcml::reify_locations::Run::SetScore { location: Location::StackItem, value: 1 }
            },
            Instruction::Push { offset: 2 },
        ]
    );
}

#[test]
fn jumps_follow_the_block_in_edge_order() {
    let program = homes::Program {
        blocks: BlockGraph {
            nodes: vec![
                homes::Block { instrs: vec![homes::Instruction::Command { text: "say a".to_owned() }] },
                homes::Block { instrs: vec![] },
                homes::Block { instrs: vec![] },
            ],
            edges: vec![
                Edge {
                    source: 0,
                    target: 1,
                    weight: homes::Jmp::ExecuteIfScoreMatchesFunction { location: reg(Register::R1), value: 1, block: 1 },
                },
                Edge {
                    source: 0,
                    target: 2,
                    weight: homes::Jmp::ExecuteUnlessScoreMatchesFunction { location: reg(Register::R1), value: 1, block: 2 },
                },
                Edge { source: 1, target: 2, weight: homes::Jmp::Function { block: 2 } },
            ],
        },
        tests: vec![],
    };
    let out = insert_jmps(program);
    assert_eq!(
        out.blocks[0].instrs,
        vec![
            jumped::Instruction::Command { text: "say a".to_owned() },
            jumped::Instruction::ExecuteIfScoreMatches {
                location: reg(Register::R1),
                value: 1,
                run: Run::Function { block: 1 }
            },
            jumped::Instruction::ExecuteUnlessScoreMatches {
                location: reg(Register::R1),
                value: 1,
                run: Run::Function { block: 2 }
            },
        ]
    );
    assert_eq!(out.blocks[1].instrs, vec![jumped::Instruction::Function { block: 2 }]);
    assert!(out.blocks[2].instrs.is_empty());
}
