//! What the generator emits, stated over the values of statements and expressions.

use vstd::prelude::*;
use crate::compiler::{Shell, Target};
use crate::error::ErrorView;
use crate::parser::{BinaryOp, ExprView, StmtView, OS};

verus! {

/// Emitted text, or the error that ended the generation.
pub type Emitted = Result<Seq<char>, ErrorView>;

/// The failure of the generator with the given message.
pub open spec fn failure(message: Seq<char>) -> Emitted {
    Err(ErrorView::CompilerError(message))
}

/// One piece after another: the first error wins, else the texts are joined.
pub open spec fn followed_by(first: Emitted, rest: Emitted) -> Emitted {
    match first {
        Err(e) => Err(e),
        Ok(a) => match rest {
            Err(e) => Err(e),
            Ok(b) => Ok(a + b),
        },
    }
}

/// A piece between a fixed opening and a fixed closing.
pub open spec fn wrapped(opening: Seq<char>, piece: Emitted, closing: Seq<char>) -> Emitted {
    match piece {
        Err(e) => Err(e),
        Ok(t) => Ok(opening + t + closing),
    }
}

/// The pieces from index `from` on, one after another.
pub open spec fn concat_from(pieces: Seq<Emitted>, from: int) -> Emitted
    decreases pieces.len() - from,
{
    if from < 0 || from >= pieces.len() {
        Ok(Seq::empty())
    } else {
        followed_by(pieces[from], concat_from(pieces, from + 1))
    }
}

/// All the pieces, one after another.
pub open spec fn concat(pieces: Seq<Emitted>) -> Emitted {
    concat_from(pieces, 0)
}

/// How a variable is referred to: `$name` in Bash, `%%name%%` in Batch.
pub open spec fn reference(shell: Shell, name: Seq<char>) -> Seq<char> {
    match shell {
        Shell::Bash => "$"@ + name,
        Shell::Batch => "%%"@ + name + "%%"@,
    }
}

/// Whether a `with` block that names `tag` is kept for the operating system `os`.
pub open spec fn os_matches(os: OS, tag: Seq<char>) -> bool {
    match os {
        OS::Windows => tag == "windows"@,
        OS::Linux => tag == "linux"@,
    }
}

/// The separator that leads each part of a path.
pub open spec fn separator(os: OS) -> Seq<char> {
    match os {
        OS::Windows => "\\"@,
        OS::Linux => "/"@,
    }
}

pub open spec fn is_arithmetic(op: BinaryOp) -> bool {
    op == BinaryOp::Add || op == BinaryOp::Subtract || op == BinaryOp::Multiply || op
        == BinaryOp::Divide
}

/// The text of an operator under a type tag, or `None` where the combination has none.
pub open spec fn operator_text(shell: Shell, tag: Seq<char>, op: BinaryOp) -> Option<Seq<char>> {
    match op {
        BinaryOp::Add => Some("+"@),
        BinaryOp::Subtract => Some("-"@),
        BinaryOp::Multiply => Some("*"@),
        BinaryOp::Divide => Some("/"@),
        _ => if tag == "str"@ {
            match op {
                BinaryOp::Equal => Some("=="@),
                BinaryOp::NotEqual => Some("!="@),
                BinaryOp::LessThan => if shell == Shell::Bash {
                    Some("<"@)
                } else {
                    None
                },
                BinaryOp::GreaterThan => if shell == Shell::Bash {
                    Some(">"@)
                } else {
                    None
                },
                _ => None,
            }
        } else if tag == "int"@ {
            match shell {
                Shell::Bash => match op {
                    BinaryOp::Equal => Some("-eq"@),
                    BinaryOp::NotEqual => Some("-ne"@),
                    BinaryOp::LessThan => Some("-lt"@),
                    BinaryOp::GreaterThan => Some("-gt"@),
                    BinaryOp::LessThanEq => Some("-le"@),
                    _ => Some("-ge"@),
                },
                Shell::Batch => match op {
                    BinaryOp::Equal => Some("EQU"@),
                    BinaryOp::NotEqual => Some("NEQ"@),
                    BinaryOp::LessThan => Some("LSS"@),
                    BinaryOp::GreaterThan => Some("GTR"@),
                    BinaryOp::LessThanEq => Some("LEQ"@),
                    _ => Some("GEQ"@),
                },
            }
        } else {
            None
        },
    }
}

/// The operator as it is written under the active type tag; without a tag there is none.
pub open spec fn emit_operator(shell: Shell, tag: Option<Seq<char>>, op: BinaryOp) -> Emitted {
    match tag {
        None => failure("No condition type found for operator formatting"@),
        Some(t) => match operator_text(shell, t, op) {
            Some(text) => Ok(text),
            None => failure("Operator is not implemented for this type tag and shell"@),
        },
    }
}

/// A binary expression, from the texts of its operands and operator.
pub open spec fn emit_binary(
    shell: Shell,
    tag: Seq<char>,
    op: BinaryOp,
    left: Seq<char>,
    operator: Seq<char>,
    right: Seq<char>,
) -> Emitted {
    if shell == Shell::Bash && tag == "int"@ {
        if is_arithmetic(op) {
            Ok("$(("@ + left + " "@ + operator + " "@ + right + "))"@)
        } else {
            Ok(left + " "@ + operator + " "@ + right)
        }
    } else if shell == Shell::Bash && tag == "str"@ {
        Ok("\""@ + left + right + "\""@)
    } else {
        failure("Binary expressions are not implemented for this shell and type tag"@)
    }
}

/// The names that are translated to native commands.
pub open spec fn is_standard_function(name: Seq<char>) -> bool {
    ||| name == "cd"@
    ||| name == "print"@
    ||| name == "echo"@
    ||| name == "make_dir"@
    ||| name == "mkdir"@
    ||| name == "remove_dir"@
    ||| name == "rmdir"@
    ||| name == "remove"@
    ||| name == "del"@
    ||| name == "path"@
    ||| name == "copy"@
    ||| name == "cp"@
    ||| name == "move"@
    ||| name == "mv"@
    ||| name == "read"@
    ||| name == "exit"@
    ||| name == "exists"@
}

/// One part of a path: a variable as `$name`, a string or a number as it stands.
pub open spec fn path_part(arg: ExprView) -> Emitted {
    match arg {
        ExprView::Identifier(id) => Ok("$"@ + id),
        ExprView::String(s) => Ok(s),
        ExprView::Number(n) => Ok(n),
        _ => failure("Unsupported argument type"@),
    }
}

/// The parts of a path, each led by the separator.
pub open spec fn path_parts(os: OS, args: Seq<ExprView>) -> Seq<Emitted> {
    Seq::new(args.len(), |i: int| followed_by(Ok(separator(os)), path_part(args[i])))
}

/// The arguments joined to a path.
pub open spec fn joined_path(os: OS, args: Seq<ExprView>) -> Emitted {
    concat(path_parts(os, args))
}

/// A path in quotes that ends its line.
pub open spec fn path_line(os: OS, args: Seq<ExprView>) -> Emitted {
    wrapped("\""@, joined_path(os, args), "\"\n"@)
}

/// A call of `path`: the path in quotes, then a space.
pub open spec fn emit_path_call(os: OS, args: Seq<ExprView>) -> Emitted {
    if args.len() == 0 {
        failure("path requires at least one argument"@)
    } else {
        wrapped("\""@, joined_path(os, args), "\" "@)
    }
}

/// One argument of `print` or `echo`.
pub open spec fn echo_part(shell: Shell, arg: ExprView) -> Emitted {
    match arg {
        ExprView::String(s) => Ok(s),
        ExprView::Identifier(id) => match shell {
            Shell::Bash => Ok("$"@ + id),
            Shell::Batch => Ok("%%"@ + id + "%% "@),
        },
        ExprView::Number(n) => Ok(n),
        _ => failure("Unsupported argument type in print/echo"@),
    }
}

pub open spec fn echo_parts(shell: Shell, args: Seq<ExprView>) -> Seq<Emitted> {
    Seq::new(args.len(), |i: int| echo_part(shell, args[i]))
}

/// One argument of `copy` or `move`: it has to be a call of `path`.
pub open spec fn path_argument(os: OS, arg: ExprView, complaint: Seq<char>) -> Emitted {
    match arg {
        ExprView::Call { name, args } => if name == "path"@ {
            emit_path_call(os, args)
        } else {
            failure(complaint)
        },
        _ => failure(complaint),
    }
}

pub open spec fn path_arguments(os: OS, args: Seq<ExprView>, complaint: Seq<char>) -> Seq<
    Emitted,
> {
    Seq::new(args.len(), |i: int| path_argument(os, args[i], complaint))
}

/// A command that takes one path: the command, then the path in quotes.
pub open spec fn emit_path_command(
    os: OS,
    command: Seq<char>,
    args: Seq<ExprView>,
    complaint: Seq<char>,
) -> Emitted {
    if args.len() == 0 {
        failure(complaint)
    } else {
        followed_by(Ok(command), path_line(os, args))
    }
}

/// A command that takes two paths, each a call of `path`.
pub open spec fn emit_transfer(
    os: OS,
    command: Seq<char>,
    args: Seq<ExprView>,
    arity_complaint: Seq<char>,
    kind_complaint: Seq<char>,
) -> Emitted {
    if args.len() != 2 {
        failure(arity_complaint)
    } else {
        wrapped(command, concat(path_arguments(os, args, kind_complaint)), "\n"@)
    }
}

pub open spec fn emit_echo(shell: Shell, args: Seq<ExprView>) -> Emitted {
    if args.len() == 0 {
        failure("print/echo requires at least one argument"@)
    } else {
        match shell {
            Shell::Bash => wrapped("echo \""@, concat(echo_parts(shell, args)), "\"\n"@),
            Shell::Batch => wrapped("echo "@, concat(echo_parts(shell, args)), "\n"@),
        }
    }
}

pub open spec fn emit_read(shell: Shell, args: Seq<ExprView>) -> Emitted {
    if args.len() != 2 {
        failure("read requires exactly two arguments"@)
    } else {
        match args[0] {
            ExprView::String(prompt) => match args[1] {
                ExprView::Identifier(variable) => match shell {
                    Shell::Bash => Ok(
                        "read -p \""@ + prompt + ": "@ + "\" "@ + variable + " "@ + "\n"@,
                    ),
                    Shell::Batch => Ok(
                        "set /p "@ + variable + "="@ + "\""@ + prompt + ": \""@ + "\n"@,
                    ),
                },
                _ => failure("Second argument of read must be an identifier"@),
            },
            _ => failure("First argument of read must be a string"@),
        }
    }
}

pub open spec fn emit_exit(shell: Shell, args: Seq<ExprView>) -> Emitted {
    if args.len() == 0 {
        failure("exit requires an exit code argument"@)
    } else {
        match args[0] {
            ExprView::Number(code) => match shell {
                Shell::Bash => Ok("exit "@ + code + "\n"@),
                Shell::Batch => Ok("exit /b "@ + code + "\n"@),
            },
            _ => failure("First argument of exit must be a number"@),
        }
    }
}

pub open spec fn emit_exists(os: OS, args: Seq<ExprView>) -> Emitted {
    if args.len() == 0 {
        failure("exists requires a file path argument"@)
    } else {
        wrapped("-e \""@, joined_path(os, args), "\""@)
    }
}

/// A call of a standard function, translated to the native command of the target.
pub open spec fn emit_standard_call(
    target: Target,
    name: Seq<char>,
    args: Seq<ExprView>,
) -> Emitted {
    let os = target.os;
    let shell = target.shell;
    if name == "cd"@ {
        emit_path_command(os, "cd "@, args, "cd requires a directory argument"@)
    } else if name == "print"@ || name == "echo"@ {
        emit_echo(shell, args)
    } else if name == "make_dir"@ || name == "mkdir"@ {
        emit_path_command(
            os,
            match shell {
                Shell::Bash => "mkdir -p "@,
                Shell::Batch => "mkdir "@,
            },
            args,
            "make_dir requires at least one argument"@,
        )
    } else if name == "remove_dir"@ || name == "rmdir"@ {
        emit_path_command(os, "rmdir "@, args, "remove_dir requires at least one argument"@)
    } else if name == "remove"@ || name == "del"@ {
        emit_path_command(
            os,
            match shell {
                Shell::Bash => "rm -f "@,
                Shell::Batch => "del /Q "@,
            },
            args,
            "remove requires at least one argument"@,
        )
    } else if name == "path"@ {
        emit_path_call(os, args)
    } else if name == "copy"@ || name == "cp"@ {
        emit_transfer(
            os,
            match shell {
                Shell::Bash => "cp "@,
                Shell::Batch => "copy "@,
            },
            args,
            "copy/cp requires exactly two arguments"@,
            "copy/cp requires path() as argument"@,
        )
    } else if name == "move"@ || name == "mv"@ {
        emit_transfer(
            os,
            match shell {
                Shell::Bash => "mv "@,
                Shell::Batch => "move "@,
            },
            args,
            "move/mv requires exactly two arguments"@,
            "move/mv requires path() as argument"@,
        )
    } else if name == "read"@ {
        emit_read(shell, args)
    } else if name == "exit"@ {
        emit_exit(shell, args)
    } else {
        emit_exists(os, args)
    }
}

/// One argument of a call that is emitted as it stands.
pub open spec fn literal_argument(shell: Shell, arg: ExprView) -> Emitted {
    match arg {
        ExprView::Identifier(id) => Ok("\""@ + reference(shell, id) + "\" "@),
        ExprView::String(s) => Ok("\""@ + s + "\" "@),
        ExprView::Number(n) => Ok(n + " "@),
        _ => failure("Unsupported argument type in function call"@),
    }
}

pub open spec fn literal_arguments(shell: Shell, args: Seq<ExprView>) -> Seq<Emitted> {
    Seq::new(args.len(), |i: int| literal_argument(shell, args[i]))
}

/// A call: a standard function is translated, any other name is emitted as a command line.
pub open spec fn emit_call(target: Target, name: Seq<char>, args: Seq<ExprView>) -> Emitted {
    if is_standard_function(name) {
        emit_standard_call(target, name, args)
    } else {
        wrapped(name + " "@, concat(literal_arguments(target.shell, args)), "\n"@)
    }
}

/// An expression under the active type tag.
pub open spec fn emit_expr(target: Target, tag: Option<Seq<char>>, e: ExprView) -> Emitted
    decreases e,
{
    match e {
        ExprView::Number(n) => Ok(n),
        ExprView::String(s) => Ok("\""@ + s + "\""@),
        ExprView::Identifier(id) => Ok(reference(target.shell, id)),
        ExprView::Binary { left, operator, right } => match emit_expr(target, tag, *left) {
            Err(e) => Err(e),
            Ok(l) => match emit_operator(target.shell, tag, operator) {
                Err(e) => Err(e),
                Ok(o) => match emit_expr(target, tag, *right) {
                    Err(e) => Err(e),
                    Ok(r) => emit_binary(target.shell, tag->0, operator, l, o, r),
                },
            },
        },
        ExprView::Call { name, args } => emit_call(target, name, args),
    }
}

/// One item of a raw instruction.
pub open spec fn raw_part(target: Target, tag: Option<Seq<char>>, item: ExprView) -> Emitted {
    match item {
        ExprView::String(s) => Ok("\""@ + s + "\" "@),
        ExprView::Identifier(id) => Ok(id + " "@),
        ExprView::Binary { left, operator, right } => match emit_expr(target, tag, *left) {
            Err(e) => Err(e),
            Ok(l) => match emit_operator(target.shell, tag, operator) {
                Err(e) => Err(e),
                Ok(o) => match emit_expr(target, tag, *right) {
                    Err(e) => Err(e),
                    Ok(r) => Ok(l + " "@ + o + " "@ + r + " "@),
                },
            },
        },
        ExprView::Number(n) => Ok(n + " "@),
        _ => failure("Unsupported raw instruction"@),
    }
}

pub open spec fn raw_parts(target: Target, tag: Option<Seq<char>>, items: Seq<ExprView>) -> Seq<
    Emitted,
> {
    Seq::new(items.len(), |i: int| raw_part(target, tag, items[i]))
}

/// A raw instruction: its items, each followed by a space, then a newline.
pub open spec fn emit_raw(target: Target, tag: Option<Seq<char>>, items: Seq<ExprView>) -> Emitted {
    followed_by(concat(raw_parts(target, tag, items)), Ok("\n"@))
}

/// The digits of a natural number in base ten.
pub open spec fn decimal(n: nat) -> Seq<char>
    decreases n,
{
    if n < 10 {
        seq![digit_char(n)]
    } else {
        decimal(n / 10).push(digit_char(n % 10))
    }
}

/// The character of a digit below ten.
pub open spec fn digit_char(d: nat) -> char {
    if d == 0 {
        '0'
    } else if d == 1 {
        '1'
    } else if d == 2 {
        '2'
    } else if d == 3 {
        '3'
    } else if d == 4 {
        '4'
    } else if d == 5 {
        '5'
    } else if d == 6 {
        '6'
    } else if d == 7 {
        '7'
    } else if d == 8 {
        '8'
    } else {
        '9'
    }
}

/// The line that binds a parameter of a function to its position, counted from one.
pub open spec fn parameter_line(parameter: ExprView, index: int) -> Emitted {
    match parameter {
        ExprView::Identifier(id) => Ok(
            "local "@ + id + "=$"@ + decimal((index + 1) as nat) + "\n"@,
        ),
        _ => failure("Function arguments must be identifiers"@),
    }
}

pub open spec fn parameter_lines(parameters: Seq<ExprView>) -> Seq<Emitted> {
    Seq::new(parameters.len(), |i: int| parameter_line(parameters[i], i))
}

/// The statements of a block, one after another.
pub open spec fn emit_block(target: Target, tag: Option<Seq<char>>, block: Seq<StmtView>) -> Emitted
    decreases block, 1nat,
{
    concat(block_parts(target, tag, block))
}

pub open spec fn block_parts(target: Target, tag: Option<Seq<char>>, block: Seq<StmtView>) -> Seq<
    Emitted,
>
    decreases block, 0nat,
{
    Seq::new(
        block.len(),
        |i: int|
            if 0 <= i < block.len() {
                emit_statement(target, tag, block[i])
            } else {
                Ok(Seq::empty())
            },
    )
}

/// A statement. `tag` is the type tag of the nearest enclosing `if` or `while`, which a raw
/// instruction borrows; `let`, `if` and `while` bring their own.
pub open spec fn emit_statement(target: Target, tag: Option<Seq<char>>, s: StmtView) -> Emitted
    decreases s, 2nat,
{
    match s {
        StmtView::Let { variable_type, name, value } => wrapped(
            match target.shell {
                Shell::Batch => "set "@ + name + "="@,
                Shell::Bash => name + "="@,
            },
            emit_expr(target, Some(variable_type), value),
            "\n"@,
        ),
        StmtView::If { condition_type, condition, then_branch, else_branch } => {
            let own = Some(condition_type);
            match target.shell {
                Shell::Batch => followed_by(
                    wrapped("if "@, emit_expr(target, own, condition), " (\n"@),
                    followed_by(
                        emit_block(target, own, then_branch),
                        match else_branch {
                            Some(other) => wrapped(
                                ") else (\n"@,
                                emit_block(target, own, other),
                                ")\n"@,
                            ),
                            None => Ok(")\n"@),
                        },
                    ),
                ),
                Shell::Bash => followed_by(
                    wrapped("if [[ "@, emit_expr(target, own, condition), " ]]; then\n"@),
                    followed_by(
                        emit_block(target, own, then_branch),
                        match else_branch {
                            Some(other) => wrapped(
                                "else\n"@,
                                emit_block(target, own, other),
                                "fi\n"@,
                            ),
                            None => Ok("fi\n"@),
                        },
                    ),
                ),
            }
        },
        StmtView::With { os, body } => if os_matches(target.os, os) {
            emit_block(target, tag, body)
        } else {
            Ok(Seq::empty())
        },
        StmtView::While { condition_type, condition, body } => {
            let own = Some(condition_type);
            match target.shell {
                Shell::Batch => followed_by(
                    wrapped(":while "@, emit_expr(target, own, condition), " (\n"@),
                    followed_by(emit_block(target, own, body), Ok(")\n"@)),
                ),
                Shell::Bash => followed_by(
                    wrapped("while [[ "@, emit_expr(target, own, condition), " ]]; do\n"@),
                    followed_by(emit_block(target, own, body), Ok("done\n"@)),
                ),
            }
        },
        StmtView::Function { name, arguments, body } => match target.shell {
            Shell::Batch => failure("Batch shell compilation for functions not implemented yet"@),
            Shell::Bash => followed_by(
                Ok(name + "() {\n"@),
                followed_by(
                    match arguments {
                        Some(parameters) => concat(parameter_lines(parameters)),
                        None => Ok(Seq::empty()),
                    },
                    followed_by(emit_block(target, tag, body), Ok("}\n"@)),
                ),
            ),
        },
        StmtView::Expression(e) => match e {
            ExprView::Call { name, args } => emit_call(target, name, args),
            _ => failure("Expression is not a function call"@),
        },
        StmtView::RawInstruction(items) => emit_raw(target, tag, items),
    }
}

/// A whole program: its statements in order, with no type tag around them.
pub open spec fn emit_program(target: Target, program: Seq<StmtView>) -> Emitted {
    emit_block(target, None, program)
}

/// The program from the statement at index `from` on.
pub open spec fn emit_program_from(target: Target, program: Seq<StmtView>, from: int) -> Emitted {
    concat_from(block_parts(target, None, program), from)
}

/// The index of the first piece at or after `from` that is an error; the length where there is
/// none, and `from` itself where it lies past the end.
pub open spec fn first_failure(pieces: Seq<Emitted>, from: int) -> int
    decreases pieces.len() - from,
{
    if from < 0 || from >= pieces.len() {
        from
    } else if pieces[from] is Err {
        from
    } else {
        first_failure(pieces, from + 1)
    }
}

/// Where the generator stops in a program that it reads from the statement at index `from`.
pub open spec fn stopping_point(target: Target, program: Seq<StmtView>, from: int) -> int {
    first_failure(block_parts(target, None, program), from)
}


/// One more piece of a run: a text goes to what is done, an error ends the run.
pub proof fn lemma_concat_step(pieces: Seq<Emitted>, i: int, done: Seq<char>)
    requires
        0 <= i < pieces.len(),
    ensures
        match pieces[i] {
            Ok(t) => followed_by(Ok(done), concat_from(pieces, i)) == followed_by(
                Ok(done + t),
                concat_from(pieces, i + 1),
            ),
            Err(e) => followed_by(Ok(done), concat_from(pieces, i)) == Err::<Seq<char>, ErrorView>(
                e,
            ),
        },
{
    match pieces[i] {
        Ok(t) => {
            match concat_from(pieces, i + 1) {
                Ok(rest) => {
                    assert(done + (t + rest) =~= (done + t) + rest);
                },
                Err(e) => {},
            }
        },
        Err(e) => {},
    }
}

/// Nothing done yet changes nothing.
pub proof fn lemma_concat_start(rest: Emitted)
    ensures
        followed_by(Ok(Seq::empty()), rest) == rest,
{
    match rest {
        Ok(t) => {
            assert(Seq::<char>::empty() + t =~= t);
        },
        Err(e) => {},
    }
}

/// Past the last piece nothing is added.
pub proof fn lemma_concat_end(pieces: Seq<Emitted>, i: int, done: Seq<char>)
    requires
        i >= pieces.len(),
    ensures
        followed_by(Ok(done), concat_from(pieces, i)) == Ok::<Seq<char>, ErrorView>(done),
{
    assert(done + Seq::<char>::empty() =~= done);
}

/// A program of one statement is that statement.
pub proof fn lemma_single_statement(target: Target, s: StmtView)
    ensures
        emit_program(target, seq![s]) == emit_statement(target, None, s),
{
    let pieces = block_parts(target, None, seq![s]);
    assert(pieces[0] == emit_statement(target, None, s));
    assert(concat_from(pieces, 1) == Ok::<Seq<char>, ErrorView>(Seq::empty()));
    match emit_statement(target, None, s) {
        Ok(t) => {
            assert(t + Seq::<char>::empty() =~= t);
        },
        Err(e) => {},
    }
}

/// A `with` block is its body where it names the operating system of the target, and nothing
/// where it names another: whatever the body holds, it then gives the empty text and no error.
pub proof fn lemma_with_block(
    target: Target,
    tag: Option<Seq<char>>,
    os: Seq<char>,
    body: Seq<StmtView>,
)
    ensures
        os_matches(target.os, os) ==> emit_statement(target, tag, StmtView::With { os, body })
            == emit_block(target, tag, body),
        !os_matches(target.os, os) ==> emit_statement(target, tag, StmtView::With { os, body })
            == Ok::<Seq<char>, ErrorView>(Seq::empty()),
{
}

/// Each operating system goes by its own name and not by the other's.
pub proof fn lemma_os_names()
    ensures
        os_matches(OS::Linux, "linux"@),
        os_matches(OS::Windows, "windows"@),
        !os_matches(OS::Windows, "linux"@),
        !os_matches(OS::Linux, "windows"@),
{
    reveal_strlit("linux");
    reveal_strlit("windows");
    assert("linux"@.len() == 5);
    assert("windows"@.len() == 7);
}

/// A program that is one `with linux` block gives the empty text for Windows, and for Linux
/// what its body gives as a program of its own.
pub proof fn lemma_with_linux_program(shell: Shell, body: Seq<StmtView>)
    ensures
        emit_program(
            Target { os: OS::Windows, shell },
            seq![StmtView::With { os: "linux"@, body }],
        ) == Ok::<Seq<char>, ErrorView>(Seq::empty()),
        emit_program(Target { os: OS::Linux, shell }, seq![StmtView::With { os: "linux"@, body }])
            == emit_program(Target { os: OS::Linux, shell }, body),
{
    let block = StmtView::With { os: "linux"@, body };
    lemma_single_statement(Target { os: OS::Windows, shell }, block);
    lemma_single_statement(Target { os: OS::Linux, shell }, block);
    lemma_with_block(Target { os: OS::Windows, shell }, None, "linux"@, body);
    lemma_with_block(Target { os: OS::Linux, shell }, None, "linux"@, body);
    lemma_os_names();
}

/// The two type tags that the generator knows are different texts.
pub proof fn lemma_tags_differ()
    ensures
        "int"@ != "str"@,
{
    reveal_strlit("str");
    reveal_strlit("int");
    assert("int"@[0] == 'i');
    assert("str"@[0] == 's');
}

/// In Bash a variable is written as `$name`, in Batch as `%%name%%`, under any type tag.
pub proof fn lemma_variable_reference(target: Target, tag: Option<Seq<char>>, name: Seq<char>)
    ensures
        target.shell == Shell::Bash ==> emit_expr(target, tag, ExprView::Identifier(name)) == Ok::<
            Seq<char>,
            ErrorView,
        >("$"@ + name),
        target.shell == Shell::Batch ==> emit_expr(target, tag, ExprView::Identifier(name))
            == Ok::<Seq<char>, ErrorView>("%%"@ + name + "%%"@),
{
}

/// In Bash a binding under the tag `int` whose value is a sum is written as
/// `name=$((left + right))`, from the texts of the two operands.
pub proof fn lemma_let_int_sum(
    os: OS,
    tag: Option<Seq<char>>,
    name: Seq<char>,
    left: ExprView,
    right: ExprView,
    left_text: Seq<char>,
    right_text: Seq<char>,
)
    requires
        emit_expr(Target { os, shell: Shell::Bash }, Some("int"@), left) == Ok::<
            Seq<char>,
            ErrorView,
        >(left_text),
        emit_expr(Target { os, shell: Shell::Bash }, Some("int"@), right) == Ok::<
            Seq<char>,
            ErrorView,
        >(right_text),
    ensures
        emit_statement(
            Target { os, shell: Shell::Bash },
            tag,
            StmtView::Let {
                variable_type: "int"@,
                name,
                value: ExprView::Binary {
                    left: Box::new(left),
                    operator: BinaryOp::Add,
                    right: Box::new(right),
                },
            },
        ) == Ok::<Seq<char>, ErrorView>(
            name + "="@ + ("$(("@ + left_text + " "@ + "+"@ + " "@ + right_text + "))"@) + "\n"@,
        ),
{
}

/// In Bash a binding under the tag `str` whose value is a sum is written as
/// `name="leftright"`, from the texts of the two operands.
pub proof fn lemma_let_str_sum(
    os: OS,
    tag: Option<Seq<char>>,
    name: Seq<char>,
    left: ExprView,
    right: ExprView,
    left_text: Seq<char>,
    right_text: Seq<char>,
)
    requires
        emit_expr(Target { os, shell: Shell::Bash }, Some("str"@), left) == Ok::<
            Seq<char>,
            ErrorView,
        >(left_text),
        emit_expr(Target { os, shell: Shell::Bash }, Some("str"@), right) == Ok::<
            Seq<char>,
            ErrorView,
        >(right_text),
    ensures
        emit_statement(
            Target { os, shell: Shell::Bash },
            tag,
            StmtView::Let {
                variable_type: "str"@,
                name,
                value: ExprView::Binary {
                    left: Box::new(left),
                    operator: BinaryOp::Add,
                    right: Box::new(right),
                },
            },
        ) == Ok::<Seq<char>, ErrorView>(
            name + "="@ + ("\""@ + left_text + right_text + "\""@) + "\n"@,
        ),
{
    lemma_tags_differ();
}

/// The word of a relation under the tag `int`: `-lt` and its like in Bash, `LSS` and its like
/// in Batch.
pub proof fn lemma_int_relation_words()
    ensures
        operator_text(Shell::Bash, "int"@, BinaryOp::Equal) == Some("-eq"@),
        operator_text(Shell::Bash, "int"@, BinaryOp::NotEqual) == Some("-ne"@),
        operator_text(Shell::Bash, "int"@, BinaryOp::LessThan) == Some("-lt"@),
        operator_text(Shell::Bash, "int"@, BinaryOp::GreaterThan) == Some("-gt"@),
        operator_text(Shell::Bash, "int"@, BinaryOp::LessThanEq) == Some("-le"@),
        operator_text(Shell::Bash, "int"@, BinaryOp::GreaterThanEq) == Some("-ge"@),
        operator_text(Shell::Batch, "int"@, BinaryOp::Equal) == Some("EQU"@),
        operator_text(Shell::Batch, "int"@, BinaryOp::NotEqual) == Some("NEQ"@),
        operator_text(Shell::Batch, "int"@, BinaryOp::LessThan) == Some("LSS"@),
        operator_text(Shell::Batch, "int"@, BinaryOp::GreaterThan) == Some("GTR"@),
        operator_text(Shell::Batch, "int"@, BinaryOp::LessThanEq) == Some("LEQ"@),
        operator_text(Shell::Batch, "int"@, BinaryOp::GreaterThanEq) == Some("GEQ"@),
{
    lemma_tags_differ();
}

/// Under the tag `int`, `x < y` between two variables is `$x -lt $y` as an expression in Bash.
/// In Batch the expression is not implemented; as an item of a raw instruction it is
/// `%%x%% LSS %%y%%`, followed by a space.
pub proof fn lemma_less_than_under_int(os: OS, x: Seq<char>, y: Seq<char>)
    ensures
        emit_expr(
            Target { os, shell: Shell::Bash },
            Some("int"@),
            ExprView::Binary {
                left: Box::new(ExprView::Identifier(x)),
                operator: BinaryOp::LessThan,
                right: Box::new(ExprView::Identifier(y)),
            },
        ) == Ok::<Seq<char>, ErrorView>("$"@ + x + " "@ + "-lt"@ + " "@ + ("$"@ + y)),
        emit_expr(
            Target { os, shell: Shell::Batch },
            Some("int"@),
            ExprView::Binary {
                left: Box::new(ExprView::Identifier(x)),
                operator: BinaryOp::LessThan,
                right: Box::new(ExprView::Identifier(y)),
            },
        ) == failure("Binary expressions are not implemented for this shell and type tag"@),
        raw_part(
            Target { os, shell: Shell::Batch },
            Some("int"@),
            ExprView::Binary {
                left: Box::new(ExprView::Identifier(x)),
                operator: BinaryOp::LessThan,
                right: Box::new(ExprView::Identifier(y)),
            },
        ) == Ok::<Seq<char>, ErrorView>(
            "%%"@ + x + "%%"@ + " "@ + "LSS"@ + " "@ + ("%%"@ + y + "%%"@) + " "@,
        ),
{
    lemma_int_relation_words();
    let bash = Target { os, shell: Shell::Bash };
    let batch = Target { os, shell: Shell::Batch };
    let tag = Some("int"@);
    assert(emit_expr(bash, tag, ExprView::Identifier(x)) == Ok::<Seq<char>, ErrorView>("$"@ + x));
    assert(emit_expr(bash, tag, ExprView::Identifier(y)) == Ok::<Seq<char>, ErrorView>("$"@ + y));
    assert(emit_expr(batch, tag, ExprView::Identifier(x)) == Ok::<Seq<char>, ErrorView>(
        "%%"@ + x + "%%"@,
    ));
    assert(emit_expr(batch, tag, ExprView::Identifier(y)) == Ok::<Seq<char>, ErrorView>(
        "%%"@ + y + "%%"@,
    ));
}

/// The name `exit` is a standard function and none of those that are looked for before it.
proof fn lemma_exit_is_told_apart()
    ensures
        is_standard_function("exit"@),
        "exit"@ != "cd"@,
        "exit"@ != "print"@,
        "exit"@ != "echo"@,
        "exit"@ != "make_dir"@,
        "exit"@ != "mkdir"@,
        "exit"@ != "remove_dir"@,
        "exit"@ != "rmdir"@,
        "exit"@ != "remove"@,
        "exit"@ != "del"@,
        "exit"@ != "path"@,
        "exit"@ != "copy"@,
        "exit"@ != "cp"@,
        "exit"@ != "move"@,
        "exit"@ != "mv"@,
        "exit"@ != "read"@,
{
    reveal_strlit("exit");
    reveal_strlit("cd");
    reveal_strlit("print");
    reveal_strlit("echo");
    reveal_strlit("make_dir");
    reveal_strlit("mkdir");
    reveal_strlit("remove_dir");
    reveal_strlit("rmdir");
    reveal_strlit("remove");
    reveal_strlit("del");
    reveal_strlit("path");
    reveal_strlit("copy");
    reveal_strlit("cp");
    reveal_strlit("move");
    reveal_strlit("mv");
    reveal_strlit("read");
    assert("exit"@[1] == 'x');
    assert("echo"@[1] == 'c');
    assert("path"@[1] == 'a');
    assert("copy"@[1] == 'o');
    assert("move"@[1] == 'o');
    assert("read"@[0] == 'r');
}

/// A call of `exit` with a number is `exit` and the number in Bash, `exit /b` and the number in
/// Batch, on a line of its own.
pub proof fn lemma_exit_with_code(os: OS, tag: Option<Seq<char>>, code: Seq<char>)
    ensures
        emit_statement(
            Target { os, shell: Shell::Bash },
            tag,
            StmtView::Expression(
                ExprView::Call { name: "exit"@, args: seq![ExprView::Number(code)] },
            ),
        ) == Ok::<Seq<char>, ErrorView>("exit "@ + code + "\n"@),
        emit_statement(
            Target { os, shell: Shell::Batch },
            tag,
            StmtView::Expression(
                ExprView::Call { name: "exit"@, args: seq![ExprView::Number(code)] },
            ),
        ) == Ok::<Seq<char>, ErrorView>("exit /b "@ + code + "\n"@),
{
    lemma_exit_is_told_apart();
}

/// Pieces of one run after those of another: the first run from `from` on, then the second.
pub proof fn lemma_concat_append(first: Seq<Emitted>, second: Seq<Emitted>, from: int)
    requires
        0 <= from <= first.len(),
    ensures
        concat_from(first + second, from) == followed_by(concat_from(first, from), concat(second)),
    decreases first.len() - from,
{
    let all = first + second;
    if from == first.len() {
        assert(concat_from(first, from) == Ok::<Seq<char>, ErrorView>(Seq::empty()));
        lemma_concat_start(concat(second));
        lemma_concat_shift(first, second, 0);
    } else {
        lemma_concat_append(first, second, from + 1);
        assert(all[from] == first[from]);
        match first[from] {
            Err(e) => {},
            Ok(a) => {
                match concat_from(first, from + 1) {
                    Err(e) => {},
                    Ok(b) => {
                        match concat(second) {
                            Err(e) => {},
                            Ok(c) => {
                                assert(a + (b + c) =~= (a + b) + c);
                            },
                        }
                    },
                }
            },
        }
    }
}

/// The pieces of the second run are found after those of the first.
proof fn lemma_concat_shift(first: Seq<Emitted>, second: Seq<Emitted>, from: int)
    requires
        0 <= from <= second.len(),
    ensures
        concat_from(first + second, first.len() + from) == concat_from(second, from),
    decreases second.len() - from,
{
    if from < second.len() {
        lemma_concat_shift(first, second, from + 1);
        assert((first + second)[first.len() + from] == second[from]);
    }
}

/// The statements of a program are generated one by one: the script of two programs, one after
/// the other, is the script of the first and then the script of the second, and the first
/// error of the first program comes before any of the second.
pub proof fn lemma_program_append(target: Target, first: Seq<StmtView>, second: Seq<StmtView>)
    ensures
        emit_program(target, first + second) == followed_by(
            emit_program(target, first),
            emit_program(target, second),
        ),
{
    let a = block_parts(target, None, first);
    let b = block_parts(target, None, second);
    assert(block_parts(target, None, first + second) =~= a + b);
    lemma_concat_append(a, b, 0);
}

/// A statement that brings its own type tag is generated alike under every enclosing tag.
pub proof fn lemma_own_tag_decides(
    target: Target,
    tag: Option<Seq<char>>,
    other: Option<Seq<char>>,
    s: StmtView,
)
    requires
        s is Let || s is If || s is While,
    ensures
        emit_statement(target, tag, s) == emit_statement(target, other, s),
{
}

} // verus!
