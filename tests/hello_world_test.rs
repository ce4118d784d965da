use std::str;

use vtashkov_bf::Interpreter;
use vtashkov_bf::Program;

#[test]
fn it_can_execute_hello_world() {
    let input = vec![];
    let mut interpreter = Interpreter::new(input, 30000);
    let source_code = "++++++++[>++++[>++>+++>+++>+<<<<-]>+>+>->>+[<]<-]>>.>---.+++++++..+++.>>.<-.<.+++.------.--------.>>+.>++.";
    let program = Program::parse(source_code);
    interpreter.execute_program(&program);
    assert_eq!("Hello World!\n", str::from_utf8(interpreter.output().as_slice()).unwrap());
}
