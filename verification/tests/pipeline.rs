use rcc::codegen::codegen;
use rcc::errors::{CompileError, Expected};
use rcc::intermediate_process::intermediate_process;
use rcc::parse::parse;
use rcc::tokenize::{tokenize, NewTokenReader};

fn compile(text: &str) -> Result<String, CompileError> {
    let mut source = text.as_bytes().to_vec();
    source.push(0);
    let tokens = tokenize(source)?;
    let mut reader = NewTokenReader(tokens);
    let functions = parse(&mut reader)?;
    let functions = intermediate_process(functions)?;
    let code = codegen(functions)?;
    Ok(String::from_utf8(code).unwrap())
}

const EPILOGUE: &str = "pop %rax\nmov %rbp, %rsp\npop %rbp\nret\n";

#[test]
fn returns_a_constant() {
    let code = compile("int main(){ return 42; }").unwrap();
    let expected = format!(
        "{}{}{}{}",
        ".text\n.global main\nmain:\npushq %rbp\nmovq %rsp, %rbp\nsub $0, %rsp\n",
        "push $42\n",
        EPILOGUE,
        EPILOGUE
    );
    assert_eq!(code, expected);
}

#[test]
fn parenthesised_expression_is_not_in_the_grammar() {
    let err = compile("int main(){ return 2*(3+4)-1; }").unwrap_err();
    assert_eq!(err, CompileError::ParseError { pos: 22, len: 1, expected: Expected::Operand });
}

#[test]
fn locals_get_offsets_in_declaration_order() {
    let code = compile("int main(){ int a=3; int b=4; return a*b+2; }").unwrap();
    let expected = [
        ".text\n.global main\nmain:\npushq %rbp\nmovq %rsp, %rbp\nsub $32, %rsp\n",
        "lea -8(%rbp), %rax\npush %rax\n",
        "push $3\n",
        "pop %rax\npop %rdi\nmov %rax, (%rdi)\n",
        "lea -16(%rbp), %rax\npush %rax\n",
        "push $4\n",
        "pop %rax\npop %rdi\nmov %rax, (%rdi)\n",
        "lea -8(%rbp), %rax\nmov (%rax), %rax\npush %rax\n",
        "lea -16(%rbp), %rax\nmov (%rax), %rax\npush %rax\n",
        "pop %rdi\npop %rax\nimul %rdi, %rax\npush %rax\n",
        "push $2\n",
        "pop %rdi\npop %rax\nadd %rdi, %rax\npush %rax\n",
        EPILOGUE,
        EPILOGUE,
    ]
    .concat();
    assert_eq!(code, expected);
}

#[test]
fn for_loop_takes_the_current_label_and_steps_the_counter() {
    let code =
        compile("int main(){ int a=0; for(int i=0; i<5; i=i+1;) { a = a+i; } return a; }").unwrap();
    let expected = [
        ".text\n.global main\nmain:\npushq %rbp\nmovq %rsp, %rbp\nsub $80, %rsp\n",
        // int a=0;
        "lea -8(%rbp), %rax\npush %rax\npush $0\npop %rax\npop %rdi\nmov %rax, (%rdi)\n",
        // int i=0;
        "lea -16(%rbp), %rax\npush %rax\npush $0\npop %rax\npop %rdi\nmov %rax, (%rdi)\n",
        ".L_FOR_START0:\n",
        // i<5
        "lea -16(%rbp), %rax\nmov (%rax), %rax\npush %rax\n",
        "push $5\n",
        "pop %rdi\npop %rax\ncmp %rdi, %rax\nsetl %al\nmovzb %al, %rax\npush %rax\n",
        "pop %rax\nmov $1, %rdi\ncmp %rdi, %rax\njne .L_FOR_END0\n",
        // a = a+i;
        "lea -8(%rbp), %rax\npush %rax\n",
        "lea -8(%rbp), %rax\nmov (%rax), %rax\npush %rax\n",
        "lea -16(%rbp), %rax\nmov (%rax), %rax\npush %rax\n",
        "pop %rdi\npop %rax\nadd %rdi, %rax\npush %rax\n",
        "pop %rax\npop %rdi\nmov %rax, (%rdi)\n",
        // i=i+1
        "lea -16(%rbp), %rax\npush %rax\n",
        "lea -16(%rbp), %rax\nmov (%rax), %rax\npush %rax\n",
        "push $1\n",
        "pop %rdi\npop %rax\nadd %rdi, %rax\npush %rax\n",
        "pop %rax\npop %rdi\nmov %rax, (%rdi)\n",
        "jmp .L_FOR_START0\n",
        ".L_FOR_END0:\n",
        // return a;
        "lea -8(%rbp), %rax\nmov (%rax), %rax\npush %rax\n",
        EPILOGUE,
        EPILOGUE,
    ]
    .concat();
    assert_eq!(code, expected);
}

#[test]
fn if_and_else_with_a_swapped_comparison() {
    let code = compile("int main(){ int a=7; if(a>=5){ return 1; } else { return 0; } }").unwrap();
    let expected = [
        ".text\n.global main\nmain:\npushq %rbp\nmovq %rsp, %rbp\nsub $16, %rsp\n",
        "lea -8(%rbp), %rax\npush %rax\npush $7\npop %rax\npop %rdi\nmov %rax, (%rdi)\n",
        "lea -8(%rbp), %rax\nmov (%rax), %rax\npush %rax\n",
        "push $5\n",
        "pop %rdi\npop %rax\ncmp %rax, %rdi\nsetle %al\nmovzb %al, %rax\npush %rax\n",
        "pop %rax\nmov $1, %rdi\ncmp %rdi, %rax\njne .L1\n",
        "push $1\n",
        EPILOGUE,
        ".L1:\n",
        "push $0\n",
        EPILOGUE,
        EPILOGUE,
    ]
    .concat();
    assert_eq!(code, expected);
}

#[test]
fn parameters_follow_the_locals_and_calls_fill_the_registers() {
    let code =
        compile("int add(int x, int y){ return x+y; } int main(){ return add(20, 22); }").unwrap();
    let expected = [
        ".text\n",
        ".global add\nadd:\npushq %rbp\nmovq %rsp, %rbp\nsub $32, %rsp\n",
        "mov %rdi, -8(%rbp)\nmov %rsi, -16(%rbp)\n",
        "lea -8(%rbp), %rax\nmov (%rax), %rax\npush %rax\n",
        "lea -16(%rbp), %rax\nmov (%rax), %rax\npush %rax\n",
        "pop %rdi\npop %rax\nadd %rdi, %rax\npush %rax\n",
        EPILOGUE,
        EPILOGUE,
        ".global main\nmain:\npushq %rbp\nmovq %rsp, %rbp\nsub $0, %rsp\n",
        "push $20\npop %rax\nmov %rax, %rdi\n",
        "push $22\npop %rax\nmov %rax, %rsi\n",
        "call add\npush %rax\n",
        EPILOGUE,
        EPILOGUE,
    ]
    .concat();
    assert_eq!(code, expected);
}

#[test]
fn labels_are_numbered_across_functions() {
    let code = compile(
        "int f(){ if(1){ return 1; } return 0; } int main(){ if(1){ return 2; } return 3; }",
    )
    .unwrap();
    assert!(code.contains("jne .L1\n"));
    assert!(code.contains(".L1:\n"));
    assert!(code.contains("jne .L2\n"));
    assert!(code.contains(".L2:\n"));
    assert_eq!(code.matches(".text\n").count(), 1);
}

#[test]
fn label_counter_has_no_largest_digit() {
    let mut body = String::new();
    for _ in 0..12 {
        body.push_str("if(1){ return 1; } ");
    }
    let code = compile(&format!("int main(){{ {} return 0; }}", body)).unwrap();
    assert!(code.contains(".L9:\n"));
    assert!(code.contains(".L10:\n"));
    assert!(code.contains(".L12:\n"));
    assert!(!code.contains(".L13:\n"));
}

#[test]
fn use_of_an_unknown_variable_is_an_error() {
    assert_eq!(compile("int main(){ return a; }").unwrap_err(), CompileError::UndeclaredSymbol);
}

#[test]
fn second_declaration_in_one_scope_is_an_error() {
    assert_eq!(
        compile("int main(){ int a=1; int a=2; return a; }").unwrap_err(),
        CompileError::SymbolRedeclared
    );
    assert_eq!(
        compile("int f(int a){ int a=2; return a; }").unwrap_err(),
        CompileError::SymbolRedeclared
    );
}

#[test]
fn shadowing_in_a_nested_block_is_a_new_variable() {
    let code = compile("int main(){ int a=1; { int a=2; a = 3; } return a; }").unwrap();
    // the inner `a` is at 16, the outer at 8
    assert!(code.contains("lea -16(%rbp), %rax\npush %rax\npush $3\n"));
    assert!(code.ends_with(&format!(
        "lea -8(%rbp), %rax\nmov (%rax), %rax\npush %rax\n{}{}",
        EPILOGUE, EPILOGUE
    )));
}

#[test]
fn seventh_parameter_or_argument_is_an_arity_error() {
    assert_eq!(
        compile("int f(int a, int b, int c, int d, int e, int g, int h){ return a; }").unwrap_err(),
        CompileError::ArityError
    );
    assert_eq!(
        compile("int main(){ return f(1, 2, 3, 4, 5, 6, 7); }").unwrap_err(),
        CompileError::ArityError
    );
    assert!(compile("int main(){ return f(1, 2, 3, 4, 5, 6); }").is_ok());
}

#[test]
fn frame_is_a_multiple_of_sixteen() {
    // three uses of variables and one parameter: 24 + 8 bytes
    let code = compile("int f(int x){ int a=1; return a+x; }").unwrap();
    assert!(code.contains("sub $32, %rsp\n"));
    // one use of a variable: 8 bytes, rounded up
    let code = compile("int f(int x){ return x; }").unwrap();
    assert!(code.contains("sub $16, %rsp\n"));
}
