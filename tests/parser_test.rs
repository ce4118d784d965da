use vtashkov_bf::{parse, Instruction};

#[test]
fn parser_parse_ignores_non_instructions() {
    let source_code = " !\"#$%&'()*/0123456789:;=?@ABCDEFGHIJKLMNOPQRSTUVWXYZ\\^_`abcdefghijklmnopqrstuvwxyz{|}~";
    let expected: Vec<Instruction> = vec![];
    let instructions = parse(source_code);
    assert_eq!(expected, instructions);
}

#[test]
fn parser_parse_next_cell_instruction() {
    let source_code = ">";
    let expected = vec![Instruction::NextCell];
    let instructions = parse(source_code);
    assert_eq!(expected, instructions);
}

#[test]
fn parser_parse_previous_cell_instruction() {
    let source_code = "<";
    let expected = vec![Instruction::PreviousCell];
    let instructions = parse(source_code);
    assert_eq!(expected, instructions);
}

#[test]
fn parser_parse_increment_data_instruction() {
    let source_code = "+";
    let expected = vec![Instruction::IncrementData];
    let instructions = parse(source_code);
    assert_eq!(expected, instructions);
}

#[test]
fn parser_parse_decrement_data_instruction() {
    let source_code = "-";
    let expected = vec![Instruction::DecrementData];
    let instructions = parse(source_code);
    assert_eq!(expected, instructions);
}

#[test]
fn parser_parse_output_data_instruction() {
    let source_code = ".";
    let expected = vec![Instruction::OutputData];
    let instructions = parse(source_code);
    assert_eq!(expected, instructions);
}

#[test]
fn parser_parse_input_data_instruction() {
    let source_code = ",";
    let expected = vec![Instruction::InputData];
    let instructions = parse(source_code);
    assert_eq!(expected, instructions);
}

#[test]
fn parser_parse_empty_loop_instruction() {
    let source_code = "[]";
    let expected = vec![Instruction::Loop(vec![])];
    let instructions = parse(source_code);
    assert_eq!(expected, instructions);
}

#[test]
fn parser_parse_mixed_instruction() {
    let source_code = " > < + - . , [ ] ";
    let expected = vec![
        Instruction::NextCell,
        Instruction::PreviousCell,
        Instruction::IncrementData,
        Instruction::DecrementData,
        Instruction::OutputData,
        Instruction::InputData,
        Instruction::Loop(vec![]),
    ];
    let instructions = parse(source_code);
    assert_eq!(expected, instructions);
}

#[test]
fn parser_parse_simple_one_instruction_loop_instruction() {
    let source_code = "[+]";
    let expected = vec![Instruction::Loop(vec![Instruction::IncrementData])];
    let instructions = parse(source_code);
    assert_eq!(expected, instructions);
}

#[test]
fn parser_parse_simple_multiple_instructions_loop_instruction() {
    let source_code = "[+-.,]";
    let loop_instructions = vec![
        Instruction::IncrementData,
        Instruction::DecrementData,
        Instruction::OutputData,
        Instruction::InputData,
    ];
    let expected = vec![Instruction::Loop(loop_instructions)];
    let instructions = parse(source_code);
    assert_eq!(expected, instructions);
}

#[test]
fn parser_parse_inbetween_simple_loop_instruction() {
    let source_code = ".[+]-";
    let loop_instructions = vec![Instruction::IncrementData];
    let expected = vec![
        Instruction::OutputData,
        Instruction::Loop(loop_instructions),
        Instruction::DecrementData,
    ];
    let instructions = parse(source_code);
    assert_eq!(expected, instructions);
}

#[test]
fn parser_parse_embedded_loop_instruction() {
    let source_code = "[+[-].,]";
    let loop_instructions = vec![
        Instruction::IncrementData,
        Instruction::Loop(vec![Instruction::DecrementData]),
        Instruction::OutputData,
        Instruction::InputData,
    ];
    let expected = vec![Instruction::Loop(loop_instructions)];
    let instructions = parse(source_code);
    assert_eq!(expected, instructions);
}

#[test]
fn parser_parse_two_embedded_loop_instruction() {
    let source_code = "[+[-][.],]";
    let loop_instructions = vec![
        Instruction::IncrementData,
        Instruction::Loop(vec![Instruction::DecrementData]),
        Instruction::Loop(vec![Instruction::OutputData]),
        Instruction::InputData,
    ];
    let expected = vec![Instruction::Loop(loop_instructions)];
    let instructions = parse(source_code);
    assert_eq!(expected, instructions);
}

#[test]
fn parser_parse_double_embedded_loop_instruction() {
    let source_code = "[+[-[.]],]";
    let loop_instructions = vec![
        Instruction::IncrementData,
        Instruction::Loop(vec![
            Instruction::DecrementData,
            Instruction::Loop(vec![Instruction::OutputData]),
        ]),
        Instruction::InputData,
    ];
    let expected = vec![Instruction::Loop(loop_instructions)];
    let instructions = parse(source_code);
    assert_eq!(expected, instructions);
}

#[test]
fn parser_parse_no_end_loop_instruction() {
    let source_code = "[+";
    let expected = vec![Instruction::Loop(vec![Instruction::IncrementData])];
    let instructions = parse(source_code);
    assert_eq!(expected, instructions);
}

#[test]
fn parser_parse_inbetween_no_end_loop_instruction() {
    let source_code = ".[+-";
    let loop_instructions = vec![Instruction::IncrementData, Instruction::DecrementData];
    let expected = vec![
        Instruction::OutputData,
        Instruction::Loop(loop_instructions),
    ];
    let instructions = parse(source_code);
    assert_eq!(expected, instructions);
}

#[test]
fn parser_parse_embedded_no_end_loop_instruction() {
    let source_code = "[+[-].,";
    let loop_instructions = vec![
        Instruction::IncrementData,
        Instruction::Loop(vec![Instruction::DecrementData]),
        Instruction::OutputData,
        Instruction::InputData,
    ];
    let expected = vec![Instruction::Loop(loop_instructions)];
    let instructions = parse(source_code);
    assert_eq!(expected, instructions);
}

#[test]
fn parser_parse_no_embedded_end_loop_instruction() {
    let source_code = "[+[-.,]";
    let loop_instructions = vec![
        Instruction::IncrementData,
        Instruction::Loop(vec![
            Instruction::DecrementData,
            Instruction::OutputData,
            Instruction::InputData,
        ]),
    ];
    let expected = vec![Instruction::Loop(loop_instructions)];
    let instructions = parse(source_code);
    assert_eq!(expected, instructions);
}

#[test]
fn parser_parse_embedded_no_end_loops_instruction() {
    let source_code = "[+[-.,";
    let loop_instructions = vec![
        Instruction::IncrementData,
        Instruction::Loop(vec![
            Instruction::DecrementData,
            Instruction::OutputData,
            Instruction::InputData,
        ]),
    ];
    let expected = vec![Instruction::Loop(loop_instructions)];
    let instructions = parse(source_code);
    assert_eq!(expected, instructions);
}

#[test]
fn parser_parse_two_embedded_no_end_loop_instruction() {
    let source_code = "[+[-][.,]";
    let loop_instructions = vec![
        Instruction::IncrementData,
        Instruction::Loop(vec![Instruction::DecrementData]),
        Instruction::Loop(vec![Instruction::OutputData, Instruction::InputData]),
    ];
    let expected = vec![Instruction::Loop(loop_instructions)];
    let instructions = parse(source_code);
    assert_eq!(expected, instructions);
}

#[test]
fn parser_parse_double_embedded_end_loop_instruction() {
    let source_code = "[+[-[.],]";
    let loop_instructions = vec![
        Instruction::IncrementData,
        Instruction::Loop(vec![
            Instruction::DecrementData,
            Instruction::Loop(vec![Instruction::OutputData]),
            Instruction::InputData,
        ]),
    ];
    let expected = vec![Instruction::Loop(loop_instructions)];
    let instructions = parse(source_code);
    assert_eq!(expected, instructions);
}

#[test]
fn parser_parse_only_end_loop_instruction() {
    let source_code = ".+]-";
    let expected = vec![Instruction::OutputData, Instruction::IncrementData];
    let instructions = parse(source_code);
    assert_eq!(expected, instructions);
}
