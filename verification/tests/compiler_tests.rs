use rosella::{
    compile_source, BinaryOp, Compiler, Expr, Number, RosellaError, Shell, Stmt, Target, OS,
};

fn bash(source: &str) -> Result<String, RosellaError> {
    compile_source(source, OS::Linux, Shell::Bash)
}

fn batch(source: &str) -> Result<String, RosellaError> {
    compile_source(source, OS::Windows, Shell::Batch)
}

fn generate(statements: Vec<Stmt>, os: OS, shell: Shell) -> Result<String, RosellaError> {
    Compiler::new(statements, os, shell).compile()
}

fn generator_error(message: &str) -> RosellaError {
    RosellaError::CompilerError(message.to_string())
}

fn num(text: &str) -> Expr {
    Expr::Number(Number::parse(text).expect("a literal"))
}

fn var(text: &str) -> Expr {
    Expr::Identifier(text.to_string())
}

fn text(value: &str) -> Expr {
    Expr::String(value.to_string())
}

fn op(left: Expr, operator: BinaryOp, right: Expr) -> Expr {
    Expr::Binary { left: Box::new(left), operator, right: Box::new(right) }
}

fn invoke(function: &str, args: Vec<Expr>) -> Stmt {
    Stmt::Expression(Expr::Call { name: function.to_string(), args })
}

fn path_of(parts: Vec<Expr>) -> Expr {
    Expr::Call { name: "path".to_string(), args: parts }
}

#[test]
fn empty_program_gives_empty_script() {
    assert_eq!(bash(""), Ok(String::new()));
    assert_eq!(generate(vec![], OS::Windows, Shell::Batch), Ok(String::new()));
}

#[test]
fn with_block_for_another_system_is_dropped() {
    assert_eq!(
        compile_source("with linux { print(\"x\"); }", OS::Windows, Shell::Bash),
        Ok(String::new())
    );
    assert_eq!(
        compile_source("with windows { print(\"x\"); }", OS::Linux, Shell::Bash),
        Ok(String::new())
    );
    assert_eq!(
        compile_source("with macos { print(\"x\"); }", OS::Linux, Shell::Bash),
        Ok(String::new())
    );
    assert_eq!(
        compile_source("with Linux { print(\"x\"); }", OS::Linux, Shell::Bash),
        Ok(String::new())
    );
}

#[test]
fn with_block_for_the_target_is_its_body() {
    let body = "let int a = 1;\nprint(\"x\", a);\nexit(2);";
    let wrapped = format!("with linux {{ {} }}", body);
    assert_eq!(
        compile_source(&wrapped, OS::Linux, Shell::Bash),
        compile_source(body, OS::Linux, Shell::Bash)
    );
    assert_eq!(
        compile_source(&wrapped, OS::Linux, Shell::Bash),
        Ok("a=1\necho \"x$a\"\nexit 2\n".to_string())
    );
    assert_eq!(
        compile_source("with windows { exit(1); }", OS::Windows, Shell::Batch),
        Ok("exit /b 1\n".to_string())
    );
}

#[test]
fn dropped_with_block_hides_what_cannot_be_translated() {
    assert_eq!(
        compile_source("with linux { fn f() { } }", OS::Windows, Shell::Batch),
        Ok(String::new())
    );
}

#[test]
fn let_with_int_sum_in_bash() {
    assert_eq!(bash("let int result = x + y;"), Ok("result=$(($x + $y))\n".to_string()));
    assert_eq!(bash("let int r = x - 1;"), Ok("r=$(($x - 1))\n".to_string()));
    assert_eq!(bash("let int r = 2 * 3;"), Ok("r=$((2 * 3))\n".to_string()));
    assert_eq!(bash("let int r = a / b;"), Ok("r=$(($a / $b))\n".to_string()));
    assert_eq!(
        bash("let int r = a + b * 2;"),
        Ok("r=$(($a + $(($b * 2))))\n".to_string())
    );
}

#[test]
fn let_with_str_sum_in_bash() {
    assert_eq!(bash("let str s = a + b;"), Ok("s=\"$a$b\"\n".to_string()));
    assert_eq!(
        bash("let str s = \"x\" + b;"),
        Ok("s=\"\"x\"$b\"\n".to_string())
    );
}

#[test]
fn let_with_plain_values() {
    assert_eq!(bash("let int n = 5;"), Ok("n=5\n".to_string()));
    assert_eq!(bash("let int n = 2.50;"), Ok("n=2.5\n".to_string()));
    assert_eq!(bash("let str s = \"hi\";"), Ok("s=\"hi\"\n".to_string()));
    assert_eq!(bash("let str s = t;"), Ok("s=$t\n".to_string()));
    assert_eq!(batch("let int n = 5;"), Ok("set n=5\n".to_string()));
    assert_eq!(batch("let str s = t;"), Ok("set s=%%t%%\n".to_string()));
    assert_eq!(batch("let str s = \"hi\";"), Ok("set s=\"hi\"\n".to_string()));
}

#[test]
fn relation_under_int_in_bash() {
    assert_eq!(
        bash("if int (x < y) { }"),
        Ok("if [[ $x -lt $y ]]; then\nfi\n".to_string())
    );
    let cases = [
        ("==", "-eq"),
        ("!=", "-ne"),
        ("<", "-lt"),
        (">", "-gt"),
        ("<=", "-le"),
        (">=", "-ge"),
    ];
    for (source, word) in cases {
        assert_eq!(
            bash(&format!("while int (x {} 1) {{ }}", source)),
            Ok(format!("while [[ $x {} 1 ]]; do\ndone\n", word))
        );
    }
}

#[test]
fn relation_under_int_in_batch_raw_instruction() {
    assert_eq!(
        batch("if int (x) { |> x < y; }"),
        Ok("if %%x%% (\n%%x%% LSS %%y%% \n)\n".to_string())
    );
    let cases = [
        ("==", "EQU"),
        ("!=", "NEQ"),
        ("<", "LSS"),
        (">", "GTR"),
        ("<=", "LEQ"),
        (">=", "GEQ"),
    ];
    for (source, word) in cases {
        assert_eq!(
            batch(&format!("while int (x) {{ |> x {} 2; }}", source)),
            Ok(format!(":while %%x%% (\n%%x%% {} 2 \n)\n", word))
        );
    }
}

#[test]
fn relation_under_str_in_raw_instruction() {
    assert_eq!(
        bash("if str (a) { |> a == b; |> a != b; |> a < b; |> a > b; }"),
        Ok("if [[ $a ]]; then\n$a == $b \n$a != $b \n$a < $b \n$a > $b \nfi\n".to_string())
    );
    assert_eq!(
        batch("if str (a) { |> a == b; |> a != b; }"),
        Ok("if %%a%% (\n%%a%% == %%b%% \n%%a%% != %%b%% \n)\n".to_string())
    );
    assert_eq!(
        batch("if str (a) { |> a < b; }"),
        Err(generator_error("Operator is not implemented for this type tag and shell"))
    );
    assert_eq!(
        bash("if str (a) { |> a <= b; }"),
        Err(generator_error("Operator is not implemented for this type tag and shell"))
    );
}

#[test]
fn binary_expression_in_batch_is_not_implemented() {
    let message = "Binary expressions are not implemented for this shell and type tag";
    assert_eq!(batch("if int (x < y) { }"), Err(generator_error(message)));
    assert_eq!(batch("let int r = x + y;"), Err(generator_error(message)));
    assert_eq!(batch("let str r = x + y;"), Err(generator_error(message)));
}

#[test]
fn unknown_type_tag_is_not_implemented() {
    assert_eq!(
        bash("let float r = x + y;"),
        Err(generator_error("Binary expressions are not implemented for this shell and type tag"))
    );
    assert_eq!(
        bash("let float r = x < y;"),
        Err(generator_error("Operator is not implemented for this type tag and shell"))
    );
    assert_eq!(bash("let float r = x;"), Ok("r=$x\n".to_string()));
}

#[test]
fn exit_takes_a_number() {
    assert_eq!(bash("exit(0);"), Ok("exit 0\n".to_string()));
    assert_eq!(batch("exit(0);"), Ok("exit /b 0\n".to_string()));
    assert_eq!(bash("exit(17);"), Ok("exit 17\n".to_string()));
    assert_eq!(
        bash("exit();"),
        Err(generator_error("exit requires an exit code argument"))
    );
    assert_eq!(
        bash("exit(code);"),
        Err(generator_error("First argument of exit must be a number"))
    );
}

#[test]
fn if_else_in_both_shells() {
    let source = "if int (x) { print(\"a\"); } else { print(\"b\"); }";
    assert_eq!(
        bash(source),
        Ok("if [[ $x ]]; then\necho \"a\"\nelse\necho \"b\"\nfi\n".to_string())
    );
    assert_eq!(
        batch(source),
        Ok("if %%x%% (\necho a\n) else (\necho b\n)\n".to_string())
    );
}

#[test]
fn else_if_chain_in_bash() {
    assert_eq!(
        bash("if int (a == 1) { } else if int (a == 2) { exit(2); }"),
        Ok("if [[ $a -eq 1 ]]; then\nelse\nif [[ $a -eq 2 ]]; then\nexit 2\nfi\nfi\n".to_string())
    );
}

#[test]
fn while_in_both_shells() {
    assert_eq!(
        bash("while int (i < 3) { print(i); }"),
        Ok("while [[ $i -lt 3 ]]; do\necho \"$i\"\ndone\n".to_string())
    );
    assert_eq!(
        batch("while int (i) { print(i); }"),
        Ok(":while %%i%% (\necho %%i%% \n)\n".to_string())
    );
}

#[test]
fn function_declaration_in_bash() {
    assert_eq!(
        bash("fn greet(a, b) { print(a, b); }"),
        Ok("greet() {\nlocal a=$1\nlocal b=$2\necho \"$a$b\"\n}\n".to_string())
    );
    assert_eq!(bash("fn setup() { }"), Ok("setup() {\n}\n".to_string()));
}

#[test]
fn function_parameters_are_numbered_in_decimal() {
    let names = ["a", "b", "c", "d", "e", "f", "g", "h", "i", "j", "k", "l"];
    let source = format!("fn many({}) {{ }}", names.join(", "));
    let mut expected = String::from("many() {\n");
    for (index, name) in names.iter().enumerate() {
        expected.push_str(&format!("local {}=${}\n", name, index + 1));
    }
    expected.push_str("}\n");
    assert_eq!(bash(&source), Ok(expected));
}

#[test]
fn function_parameters_must_be_identifiers() {
    assert_eq!(
        bash("fn f(1) { }"),
        Err(generator_error("Function arguments must be identifiers"))
    );
    assert_eq!(
        generate(
            vec![Stmt::Function {
                name: "f".to_string(),
                arguments: Some(vec![var("a"), text("b")]),
                body: vec![],
            }],
            OS::Linux,
            Shell::Bash,
        ),
        Err(generator_error("Function arguments must be identifiers"))
    );
}

#[test]
fn function_declaration_in_batch_is_not_implemented() {
    assert_eq!(
        batch("fn f() { }"),
        Err(generator_error("Batch shell compilation for functions not implemented yet"))
    );
}

#[test]
fn call_of_unknown_name_is_a_command_line() {
    assert_eq!(
        bash("git(\"status\", branch, 2);"),
        Ok("git \"status\" \"$branch\" 2 \n".to_string())
    );
    assert_eq!(
        batch("git(\"status\", branch, 2);"),
        Ok("git \"status\" \"%%branch%%\" 2 \n".to_string())
    );
    assert_eq!(bash("ls();"), Ok("ls \n".to_string()));
    assert_eq!(
        generate(vec![invoke("run", vec![op(num("1"), BinaryOp::Add, num("2"))])], OS::Linux, Shell::Bash),
        Err(generator_error("Unsupported argument type in function call"))
    );
}

#[test]
fn cd_joins_a_path() {
    assert_eq!(bash("cd(\"home\", user, 1);"), Ok("cd \"/home/$user/1\"\n".to_string()));
    assert_eq!(batch("cd(\"home\", user);"), Ok("cd \"\\home\\$user\"\n".to_string()));
    assert_eq!(bash("cd();"), Err(generator_error("cd requires a directory argument")));
    assert_eq!(
        generate(vec![invoke("cd", vec![path_of(vec![text("a")])])], OS::Linux, Shell::Bash),
        Err(generator_error("Unsupported argument type"))
    );
}

#[test]
fn print_and_echo_join_their_arguments() {
    assert_eq!(
        bash("print(\"Hello \", name, 3);"),
        Ok("echo \"Hello $name3\"\n".to_string())
    );
    assert_eq!(
        batch("echo(\"Hello \", name, 3);"),
        Ok("echo Hello %%name%% 3\n".to_string())
    );
    assert_eq!(
        bash("print();"),
        Err(generator_error("print/echo requires at least one argument"))
    );
    assert_eq!(
        generate(vec![invoke("echo", vec![op(num("1"), BinaryOp::Add, num("2"))])], OS::Linux, Shell::Bash),
        Err(generator_error("Unsupported argument type in print/echo"))
    );
}

#[test]
fn directory_commands() {
    assert_eq!(bash("make_dir(\"a\", \"b\");"), Ok("mkdir -p \"/a/b\"\n".to_string()));
    assert_eq!(bash("mkdir(\"a\");"), Ok("mkdir -p \"/a\"\n".to_string()));
    assert_eq!(batch("mkdir(\"a\");"), Ok("mkdir \"\\a\"\n".to_string()));
    assert_eq!(bash("remove_dir(\"a\");"), Ok("rmdir \"/a\"\n".to_string()));
    assert_eq!(batch("rmdir(\"a\");"), Ok("rmdir \"\\a\"\n".to_string()));
    assert_eq!(bash("remove(\"a\", f);"), Ok("rm -f \"/a/$f\"\n".to_string()));
    assert_eq!(batch("del(\"a\");"), Ok("del /Q \"\\a\"\n".to_string()));
    assert_eq!(
        bash("make_dir();"),
        Err(generator_error("make_dir requires at least one argument"))
    );
    assert_eq!(
        bash("rmdir();"),
        Err(generator_error("remove_dir requires at least one argument"))
    );
    assert_eq!(
        bash("del();"),
        Err(generator_error("remove requires at least one argument"))
    );
}

#[test]
fn path_call_is_quoted_and_followed_by_a_space() {
    assert_eq!(bash("path(\"usr\", \"bin\");"), Ok("\"/usr/bin\" ".to_string()));
    assert_eq!(batch("path(\"usr\", d, 7);"), Ok("\"\\usr\\$d\\7\" ".to_string()));
    assert_eq!(
        compile_source("path(\"usr\");", OS::Windows, Shell::Bash),
        Ok("\"\\usr\" ".to_string())
    );
    assert_eq!(
        bash("path();"),
        Err(generator_error("path requires at least one argument"))
    );
}

#[test]
fn copy_and_move_take_two_paths() {
    assert_eq!(
        bash("copy(path(\"a\");, path(\"b\", c););"),
        Ok("cp \"/a\" \"/b/$c\" \n".to_string())
    );
    assert_eq!(
        batch("cp(path(\"a\");, path(\"b\"););"),
        Ok("copy \"\\a\" \"\\b\" \n".to_string())
    );
    assert_eq!(
        bash("move(path(\"a\");, path(\"b\"););"),
        Ok("mv \"/a\" \"/b\" \n".to_string())
    );
    assert_eq!(
        batch("mv(path(\"a\");, path(\"b\"););"),
        Ok("move \"\\a\" \"\\b\" \n".to_string())
    );
}

#[test]
fn copy_and_move_errors() {
    assert_eq!(
        bash("copy(\"a\");"),
        Err(generator_error("copy/cp requires exactly two arguments"))
    );
    assert_eq!(
        bash("move(\"a\", \"b\", \"c\");"),
        Err(generator_error("move/mv requires exactly two arguments"))
    );
    assert_eq!(
        bash("cp(\"a\", \"b\");"),
        Err(generator_error("copy/cp requires path() as argument"))
    );
    assert_eq!(
        bash("mv(path(\"a\");, \"b\");"),
        Err(generator_error("move/mv requires path() as argument"))
    );
    assert_eq!(
        bash("mv(other(\"a\");, path(\"b\"););"),
        Err(generator_error("move/mv requires path() as argument"))
    );
    assert_eq!(
        bash("cp(path();, path(\"b\"););"),
        Err(generator_error("path requires at least one argument"))
    );
}

#[test]
fn read_asks_with_a_prompt() {
    assert_eq!(
        bash("read(\"Name\", name);"),
        Ok("read -p \"Name: \" name \n".to_string())
    );
    assert_eq!(
        batch("read(\"Name\", name);"),
        Ok("set /p name=\"Name: \"\n".to_string())
    );
    assert_eq!(
        bash("read(\"Name\");"),
        Err(generator_error("read requires exactly two arguments"))
    );
    assert_eq!(
        bash("read(name, name);"),
        Err(generator_error("First argument of read must be a string"))
    );
    assert_eq!(
        bash("read(\"Name\", \"name\");"),
        Err(generator_error("Second argument of read must be an identifier"))
    );
}

#[test]
fn exists_is_a_test_fragment() {
    assert_eq!(
        bash("if str (exists(\"etc\", f);) { }"),
        Ok("if [[ -e \"/etc/$f\" ]]; then\nfi\n".to_string())
    );
    assert_eq!(
        batch("if str (exists(\"etc\");) { }"),
        Ok("if -e \"\\etc\" (\n)\n".to_string())
    );
    assert_eq!(
        bash("exists();"),
        Err(generator_error("exists requires a file path argument"))
    );
}

#[test]
fn raw_instruction_is_passed_through() {
    assert_eq!(
        bash("|> ls \"-la\" 2;"),
        Ok("ls \"-la\" 2 \n".to_string())
    );
    assert_eq!(bash("|> ;"), Ok("\n".to_string()));
    assert_eq!(
        generate(
            vec![Stmt::RawInstruction(vec![Expr::Call { name: "f".to_string(), args: vec![] }])],
            OS::Linux,
            Shell::Bash,
        ),
        Err(generator_error("Unsupported raw instruction"))
    );
}

#[test]
fn raw_instruction_without_type_tag_cannot_hold_an_operator() {
    assert_eq!(
        bash("|> a + b;"),
        Err(generator_error("No condition type found for operator formatting"))
    );
    assert_eq!(
        bash("with linux { |> a < b; }"),
        Err(generator_error("No condition type found for operator formatting"))
    );
}

#[test]
fn raw_instruction_borrows_the_nearest_type_tag() {
    assert_eq!(
        bash("if int (a) { |> a + b; |> a == b; }"),
        Ok("if [[ $a ]]; then\n$a + $b \n$a -eq $b \nfi\n".to_string())
    );
    assert_eq!(
        bash("if int (a) { if str (c) { |> a == b; } |> a == b; }"),
        Ok("if [[ $a ]]; then\nif [[ $c ]]; then\n$a == $b \nfi\n$a -eq $b \nfi\n".to_string())
    );
    assert_eq!(
        bash("while int (a) { with linux { |> a >= b; } }"),
        Ok("while [[ $a ]]; do\n$a -ge $b \ndone\n".to_string())
    );
    assert_eq!(
        bash("if int (a) { fn f() { |> a != b; } }"),
        Ok("if [[ $a ]]; then\nf() {\n$a -ne $b \n}\nfi\n".to_string())
    );
}

#[test]
fn nested_operands_in_raw_instruction() {
    assert_eq!(
        bash("if int (a) { |> a + 1 < b; }"),
        Ok("if [[ $a ]]; then\n$(($a + 1)) -lt $b \nfi\n".to_string())
    );
}

#[test]
fn expression_statement_must_be_a_call() {
    assert_eq!(
        generate(vec![Stmt::Expression(num("1"))], OS::Linux, Shell::Bash),
        Err(generator_error("Expression is not a function call"))
    );
    assert_eq!(
        generate(
            vec![Stmt::Expression(op(num("1"), BinaryOp::Add, num("2")))],
            OS::Linux,
            Shell::Bash,
        ),
        Err(generator_error("Expression is not a function call"))
    );
}

#[test]
fn first_error_ends_the_generation() {
    assert_eq!(
        bash("print(\"a\"); exit(); cd();"),
        Err(generator_error("exit requires an exit code argument"))
    );
    assert_eq!(
        bash("let int x = (a < b) + (c <= d);"),
        Ok("x=$(($a -lt $b + $c -le $d))\n".to_string())
    );
    assert_eq!(
        bash("let str x = (a <= b) + c;"),
        Err(generator_error("Operator is not implemented for this type tag and shell"))
    );
}

#[test]
fn compiling_again_gives_nothing_more() {
    let mut compiler = Compiler::new(vec![invoke("exit", vec![num("0")])], OS::Linux, Shell::Bash);
    assert_eq!(compiler.compile(), Ok("exit 0\n".to_string()));
    assert_eq!(compiler.compile(), Ok(String::new()));
}

#[test]
fn failed_statement_stays_under_the_cursor() {
    let mut compiler = Compiler::new(
        vec![invoke("exit", vec![num("0")]), invoke("exit", vec![])],
        OS::Linux,
        Shell::Bash,
    );
    assert_eq!(compiler.compile(), Err(generator_error("exit requires an exit code argument")));
    assert_eq!(compiler.compile(), Err(generator_error("exit requires an exit code argument")));
}

#[test]
fn errors_of_earlier_stages_come_first() {
    assert_eq!(bash("exit(0); #"), Err(RosellaError::InvalidPunctuation(Some('#'))));
    assert_eq!(
        bash("exit(; let"),
        Err(RosellaError::InvalidStatement(rosella::Token::Semicolon))
    );
}

#[test]
fn a_whole_script() {
    let source = "/* build */\nlet str dir = \"out\";\nwith linux {\n  make_dir(dir);\n  if int (n > 0) {\n    print(\"building \", n);\n  } else {\n    exit(1);\n  }\n}\nmake(\"all\", 2);\n";
    assert_eq!(
        bash(source),
        Ok("dir=\"out\"\nmkdir -p \"/$dir\"\nif [[ $n -gt 0 ]]; then\necho \"building $n\"\nelse\nexit 1\nfi\nmake \"all\" 2 \n".to_string())
    );
}

#[test]
fn defaults_follow_the_host() {
    assert_eq!(Target::os_of_host("windows"), OS::Windows);
    assert_eq!(Target::os_of_host("linux"), OS::Linux);
    assert_eq!(Target::os_of_host("macos"), OS::Linux);
    assert_eq!(Shell::of_host("windows"), Shell::Batch);
    assert_eq!(Shell::of_host("linux"), Shell::Bash);
    assert_eq!(Shell::Batch.extension(), "bat");
    assert_eq!(Shell::Bash.extension(), "sh");
}

#[test]
fn batch_does_not_go_with_linux() {
    assert!(!Target { os: OS::Linux, shell: Shell::Batch }.is_supported());
    assert!(Target { os: OS::Linux, shell: Shell::Bash }.is_supported());
    assert!(Target { os: OS::Windows, shell: Shell::Batch }.is_supported());
    assert!(Target { os: OS::Windows, shell: Shell::Bash }.is_supported());
}

#[test]
fn programs_compose() {
    let first = "let int a = 1;\nprint(a);\n";
    let second = "if int (a < 2) { exit(0); }\n";
    let both = format!("{}{}", first, second);
    let mut expected = bash(first).expect("a script");
    expected.push_str(&bash(second).expect("a script"));
    assert_eq!(bash(&both), Ok(expected));
    assert_eq!(
        bash("print(); if int (a) { ) }"),
        Err(RosellaError::InvalidStatement(rosella::Token::RParen))
    );
    assert_eq!(
        bash("exit(); cd();"),
        Err(generator_error("exit requires an exit code argument"))
    );
}

#[test]
fn typed_statement_is_the_same_in_every_block() {
    let inner = "if str (a) { |> a == b; }";
    let alone = bash(inner).expect("a script");
    assert_eq!(
        bash(&format!("while int (x) {{ {} }}", inner)),
        Ok(format!("while [[ $x ]]; do\n{}done\n", alone))
    );
}
