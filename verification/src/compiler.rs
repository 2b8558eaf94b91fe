//! The generator: statement trees in, script text out.

use vstd::prelude::*;
use crate::error::{ErrorView, RosellaError};
use crate::parser::{expr_views, stmt_views, BinaryOp, Expr, Stmt, StmtView, OS};
use crate::rendering::{
    block_parts, concat, concat_from, decimal, digit_char, echo_part, echo_parts, emit_block,
    emit_call, emit_echo, emit_exists, emit_exit, emit_expr, emit_operator, emit_path_call,
    emit_path_command, emit_program, emit_program_from, emit_raw, emit_read, emit_standard_call, emit_statement,
    emit_transfer, first_failure, followed_by, is_standard_function, joined_path, lemma_concat_end,
    lemma_concat_start, lemma_concat_step, literal_argument, literal_arguments, os_matches,
    parameter_line, parameter_lines, path_argument, path_arguments, path_line, path_part,
    path_parts, raw_part, raw_parts, reference, separator, stopping_point, wrapped, Emitted,
};
use crate::text::same_text;

verus! {

/// The shell dialect that generated scripts are written in.
#[derive(Debug, Clone, Copy, PartialEq, Eq, Structural)]
pub enum Shell {
    Batch,
    Bash,
}

/// The two settings that a script is generated for.
#[derive(Debug, Clone, Copy, PartialEq, Eq, Structural)]
pub struct Target {
    pub os: OS,
    pub shell: Shell,
}

impl Shell {
    /// The shell that scripts are written in by default on a host of the given name:
    /// Batch on `windows`, Bash elsewhere.
    pub fn of_host(host: &str) -> (shell: Shell)
        ensures
            shell == if host@ == "windows"@ {
                Shell::Batch
            } else {
                Shell::Bash
            },
    {
        if same_text(host, "windows") {
            Shell::Batch
        } else {
            Shell::Bash
        }
    }

    /// The file extension of scripts in this dialect: `bat` or `sh`.
    pub fn extension(&self) -> (ext: &'static str)
        ensures
            ext@ == match self {
                Shell::Batch => "bat"@,
                Shell::Bash => "sh"@,
            },
    {
        match self {
            Shell::Batch => "bat",
            Shell::Bash => "sh",
        }
    }
}

impl Target {
    /// The operating system that scripts are written for by default on a host of the given
    /// name: Windows on `windows`, Linux elsewhere.
    pub fn os_of_host(host: &str) -> (os: OS)
        ensures
            os == if host@ == "windows"@ {
                OS::Windows
            } else {
                OS::Linux
            },
    {
        if same_text(host, "windows") {
            OS::Windows
        } else {
            OS::Linux
        }
    }

    /// Whether scripts can be written for this pair: Batch does not go with Linux.
    pub fn is_supported(&self) -> (r: bool)
        ensures
            r == !(self.os == OS::Linux && self.shell == Shell::Batch),
    {
        match (self.os, self.shell) {
            (OS::Linux, Shell::Batch) => false,
            _ => true,
        }
    }
}

/// Whether a result of the generator is what the rules ask for: the same text, or the same error.
pub open spec fn emitted(r: Result<String, RosellaError>, rule: Emitted) -> bool {
    match rule {
        Ok(t) => r matches Ok(s) && s@ == t,
        Err(x) => r matches Err(y) && y@ == x,
    }
}

/// The value of an optional type tag.
pub open spec fn tag_view(tag: Option<&String>) -> Option<Seq<char>> {
    match tag {
        Some(t) => Some(t@),
        None => None,
    }
}

/// Translates statement trees to the script text of one target.
pub struct Compiler {
    statements: Vec<Stmt>,
    position: usize,
    os: OS,
    shell: Shell,
}

/// One part of a path.
fn compile_path_part(arg: &Expr) -> (r: Result<String, RosellaError>)
    ensures
        emitted(r, path_part(arg@)),
{
    match arg {
        Expr::Identifier(id) => {
            let mut out = String::from_str("$");
            out.append(id.as_str());
            Ok(out)
        },
        Expr::String(s) => Ok(s.clone()),
        Expr::Number(n) => Ok(String::from_str(n.as_str())),
        _ => Err(RosellaError::compile("Unsupported argument type")),
    }
}

/// The active type tag, which an operator cannot do without.
fn get_condition_type<'a>(tag: Option<&'a String>) -> (r: Result<&'a String, RosellaError>)
    ensures
        match tag {
            Some(t) => r == Ok::<&String, RosellaError>(t),
            None => r matches Err(e) && e@ == ErrorView::CompilerError(
                "No condition type found for operator formatting"@,
            ),
        },
{
    match tag {
        Some(t) => Ok(t),
        None => Err(RosellaError::compile("No condition type found for operator formatting")),
    }
}

/// The type tag that a statement declares: that of a `let`, an `if` or a `while`.
fn own_tag(statement: &Stmt) -> (r: Option<&String>)
    ensures
        match statement {
            Stmt::Let { variable_type, .. } => r == Some(variable_type),
            Stmt::If { condition_type, .. } => r == Some(condition_type),
            Stmt::While { condition_type, .. } => r == Some(condition_type),
            _ => r is None,
        },
{
    match statement {
        Stmt::Let { variable_type, .. } => Some(variable_type),
        Stmt::If { condition_type, .. } => Some(condition_type),
        Stmt::While { condition_type, .. } => Some(condition_type),
        _ => None,
    }
}

/// Whether a name is one of the standard functions.
fn is_std_function(name: &str) -> (r: bool)
    ensures
        r == is_standard_function(name@),
{
    same_text(name, "cd") || same_text(name, "print") || same_text(name, "echo") || same_text(
        name,
        "make_dir",
    ) || same_text(name, "mkdir") || same_text(name, "remove_dir") || same_text(name, "rmdir")
        || same_text(name, "remove") || same_text(name, "del") || same_text(name, "path")
        || same_text(name, "copy") || same_text(name, "cp") || same_text(name, "move")
        || same_text(name, "mv") || same_text(name, "read") || same_text(name, "exit")
        || same_text(name, "exists")
}

/// The character of a digit below ten.
fn digit(d: usize) -> (c: char)
    requires
        d < 10,
    ensures
        c == digit_char(d as nat),
{
    if d == 0 {
        '0'
    } else if d == 1 {
        '1'
    } else if d == 2 {
        '2'
    } else if d == 3 {
        '3'
    } else if d == 4 {
        '4'
    } else if d == 5 {
        '5'
    } else if d == 6 {
        '6'
    } else if d == 7 {
        '7'
    } else if d == 8 {
        '8'
    } else {
        '9'
    }
}

/// Appends the digits of `n` in base ten.
fn append_decimal(output: &mut String, n: usize)
    ensures
        final(output)@ == old(output)@ + decimal(n as nat),
    decreases n,
{
    if n >= 10 {
        append_decimal(output, n / 10);
    }
    output.push(digit(n % 10));
    assert(output@ =~= old(output)@ + decimal(n as nat));
}

impl Compiler {
    /// The target that the generator writes for.
    pub closed spec fn target(&self) -> Target {
        Target { os: self.os, shell: self.shell }
    }

    /// The program that the generator holds.
    pub closed spec fn program(&self) -> Seq<StmtView> {
        stmt_views(self.statements@)
    }

    /// The index of the statement that is translated next.
    pub closed spec fn cursor(&self) -> int {
        self.position as int
    }

    /// A generator for `statements` that starts at the first of them.
    pub fn new(statements: Vec<Stmt>, os: OS, shell: Shell) -> (c: Self)
        ensures
            c.program() == stmt_views(statements@),
            c.cursor() == 0,
            c.target() == (Target { os, shell }),
    {
        Compiler { statements, position: 0, os, shell }
    }

    /// Translates the statements from the cursor on and returns their text in order. The first
    /// statement that cannot be translated ends the run with its error, and the cursor stays on
    /// it; otherwise the cursor ends past the last statement.
    pub fn compile(&mut self) -> (r: Result<String, RosellaError>)
        ensures
            final(self).program() == old(self).program(),
            final(self).target() == old(self).target(),
            emitted(
                r,
                emit_program_from(old(self).target(), old(self).program(), old(self).cursor()),
            ),
            final(self).cursor() == stopping_point(
                old(self).target(),
                old(self).program(),
                old(self).cursor(),
            ),
            old(self).cursor() == 0 ==> emitted(
                r,
                emit_program(old(self).target(), old(self).program()),
            ),
    {
        let (result, stop) = self.compile_from(self.position);
        self.position = stop;
        result
    }

    /// Translates the statements from index `from` on; also returns where the run stopped.
    fn compile_from(&self, from: usize) -> (r: (Result<String, RosellaError>, usize))
        ensures
            emitted(r.0, emit_program_from(self.target(), self.program(), from as int)),
            r.1 == stopping_point(self.target(), self.program(), from as int),
    {
        let mut output = String::new();
        let ghost pieces = block_parts(self.target(), None, self.program());
        let mut i: usize = from;
        proof {
            lemma_concat_start(concat_from(pieces, from as int));
        }
        while i < self.statements.len()
            invariant
                pieces == block_parts(self.target(), None, self.program()),
                concat_from(pieces, from as int) == followed_by(
                    Ok(output@),
                    concat_from(pieces, i as int),
                ),
                first_failure(pieces, from as int) == first_failure(pieces, i as int),
            decreases self.statements.len() - i,
        {
            proof {
                lemma_concat_step(pieces, i as int, output@);
            }
            match self.compile_statement(&self.statements[i], None) {
                Ok(piece) => {
                    output.append(piece.as_str());
                },
                Err(e) => {
                    return (Err(e), i);
                },
            }
            i += 1;
        }
        proof {
            lemma_concat_end(pieces, i as int, output@);
        }
        (Ok(output), i)
    }

    /// The arguments joined to a path, appended to `output`.
    fn append_path(&self, output: &mut String, args: &Vec<Expr>) -> (r: Result<(), RosellaError>)
        ensures
            match joined_path(self.target().os, expr_views(args@)) {
                Ok(t) => r is Ok && final(output)@ == old(output)@ + t,
                Err(e) => r matches Err(x) && x@ == e,
            },
    {
        let ghost pieces = path_parts(self.os, expr_views(args@));
        let ghost start = output@;
        let mut i: usize = 0;
        while i < args.len()
            invariant
                i <= args.len(),
                pieces == path_parts(self.os, expr_views(args@)),
                followed_by(Ok(start), concat(pieces)) == followed_by(
                    Ok(output@),
                    concat_from(pieces, i as int),
                ),
            decreases args.len() - i,
        {
            let ghost before = output@;
            proof {
                lemma_concat_step(pieces, i as int, before);
            }
            let part = compile_path_part(&args[i])?;
            match self.os {
                OS::Windows => output.append("\\"),
                OS::Linux => output.append("/"),
            }
            output.append(part.as_str());
            assert(output@ =~= before + (separator(self.os) + part@));
            i += 1;
        }
        proof {
            lemma_concat_end(pieces, i as int, output@);
        }
        Ok(())
    }

    /// A path in quotes that ends its line.
    fn format_path(&self, args: &Vec<Expr>) -> (r: Result<String, RosellaError>)
        ensures
            emitted(r, path_line(self.target().os, expr_views(args@))),
    {
        let mut output = String::from_str("\"");
        self.append_path(&mut output, args)?;
        output.append("\"\n");
        Ok(output)
    }

    /// A call of `path`.
    fn compile_path_call(&self, args: &Vec<Expr>) -> (r: Result<String, RosellaError>)
        ensures
            emitted(r, emit_path_call(self.target().os, expr_views(args@))),
    {
        if args.len() == 0 {
            return Err(RosellaError::compile("path requires at least one argument"));
        }
        let mut output = String::from_str("\"");
        self.append_path(&mut output, args)?;
        output.append("\" ");
        Ok(output)
    }

    /// A command that takes one path.
    fn compile_path_command(&self, command: &str, args: &Vec<Expr>, complaint: &str) -> (r: Result<
        String,
        RosellaError,
    >)
        ensures
            emitted(
                r,
                emit_path_command(self.target().os, command@, expr_views(args@), complaint@),
            ),
    {
        if args.len() == 0 {
            return Err(RosellaError::compile(complaint));
        }
        let mut output = String::from_str(command);
        let path = self.format_path(args)?;
        output.append(path.as_str());
        Ok(output)
    }

    /// One argument of `print` or `echo`, appended to `output`.
    fn append_echo_part(&self, output: &mut String, arg: &Expr) -> (r: Result<(), RosellaError>)
        ensures
            match echo_part(self.target().shell, arg@) {
                Ok(t) => r is Ok && final(output)@ == old(output)@ + t,
                Err(e) => r matches Err(x) && x@ == e,
            },
    {
        match arg {
            Expr::String(s) => {
                output.append(s.as_str());
                Ok(())
            },
            Expr::Identifier(id) => {
                match self.shell {
                    Shell::Bash => {
                        output.append("$");
                        output.append(id.as_str());
                        assert(output@ =~= old(output)@ + ("$"@ + id@));
                    },
                    Shell::Batch => {
                        output.append("%%");
                        output.append(id.as_str());
                        output.append("%% ");
                        assert(output@ =~= old(output)@ + ("%%"@ + id@ + "%% "@));
                    },
                }
                Ok(())
            },
            Expr::Number(n) => {
                output.append(n.as_str());
                Ok(())
            },
            _ => Err(RosellaError::compile("Unsupported argument type in print/echo")),
        }
    }

    /// A call of `print` or `echo`.
    fn compile_echo(&self, args: &Vec<Expr>) -> (r: Result<String, RosellaError>)
        ensures
            emitted(r, emit_echo(self.target().shell, expr_views(args@))),
    {
        if args.len() == 0 {
            return Err(RosellaError::compile("print/echo requires at least one argument"));
        }
        let mut output = match self.shell {
            Shell::Bash => String::from_str("echo \""),
            Shell::Batch => String::from_str("echo "),
        };
        let ghost pieces = echo_parts(self.shell, expr_views(args@));
        let ghost start = output@;
        let mut i: usize = 0;
        while i < args.len()
            invariant
                i <= args.len(),
                pieces == echo_parts(self.shell, expr_views(args@)),
                followed_by(Ok(start), concat(pieces)) == followed_by(
                    Ok(output@),
                    concat_from(pieces, i as int),
                ),
            decreases args.len() - i,
        {
            proof {
                lemma_concat_step(pieces, i as int, output@);
            }
            self.append_echo_part(&mut output, &args[i])?;
            i += 1;
        }
        proof {
            lemma_concat_end(pieces, i as int, output@);
        }
        match self.shell {
            Shell::Bash => output.append("\"\n"),
            Shell::Batch => output.append("\n"),
        }
        Ok(output)
    }

    /// One argument of `copy` or `move`.
    fn compile_path_argument(&self, arg: &Expr, complaint: &str) -> (r: Result<
        String,
        RosellaError,
    >)
        ensures
            emitted(r, path_argument(self.target().os, arg@, complaint@)),
    {
        match arg {
            Expr::Call { name, args } => {
                if same_text(name.as_str(), "path") {
                    self.compile_path_call(args)
                } else {
                    Err(RosellaError::compile(complaint))
                }
            },
            _ => Err(RosellaError::compile(complaint)),
        }
    }

    /// A command that takes two paths.
    fn compile_transfer(
        &self,
        command: &str,
        args: &Vec<Expr>,
        arity_complaint: &str,
        kind_complaint: &str,
    ) -> (r: Result<String, RosellaError>)
        ensures
            emitted(
                r,
                emit_transfer(
                    self.target().os,
                    command@,
                    expr_views(args@),
                    arity_complaint@,
                    kind_complaint@,
                ),
            ),
    {
        if args.len() != 2 {
            return Err(RosellaError::compile(arity_complaint));
        }
        let mut output = String::from_str(command);
        let ghost pieces = path_arguments(self.os, expr_views(args@), kind_complaint@);
        let ghost start = output@;
        let mut i: usize = 0;
        while i < args.len()
            invariant
                i <= args.len() == 2,
                pieces == path_arguments(self.os, expr_views(args@), kind_complaint@),
                followed_by(Ok(start), concat(pieces)) == followed_by(
                    Ok(output@),
                    concat_from(pieces, i as int),
                ),
            decreases args.len() - i,
        {
            proof {
                lemma_concat_step(pieces, i as int, output@);
            }
            let piece = self.compile_path_argument(&args[i], kind_complaint)?;
            output.append(piece.as_str());
            i += 1;
        }
        proof {
            lemma_concat_end(pieces, i as int, output@);
        }
        output.append("\n");
        Ok(output)
    }

    /// A call of `read`.
    fn compile_read(&self, args: &Vec<Expr>) -> (r: Result<String, RosellaError>)
        ensures
            emitted(r, emit_read(self.target().shell, expr_views(args@))),
    {
        if args.len() != 2 {
            return Err(RosellaError::compile("read requires exactly two arguments"));
        }
        let prompt = match &args[0] {
            Expr::String(s) => s,
            _ => return Err(RosellaError::compile("First argument of read must be a string")),
        };
        let variable = match &args[1] {
            Expr::Identifier(id) => id,
            _ => return Err(
                RosellaError::compile("Second argument of read must be an identifier"),
            ),
        };
        let mut output = String::new();
        match self.shell {
            Shell::Bash => {
                output.append("read -p \"");
                output.append(prompt.as_str());
                output.append(": ");
                output.append("\" ");
                output.append(variable.as_str());
                output.append(" ");
                output.append("\n");
                assert(output@ =~= "read -p \""@ + prompt@ + ": "@ + "\" "@ + variable@ + " "@
                    + "\n"@);
            },
            Shell::Batch => {
                output.append("set /p ");
                output.append(variable.as_str());
                output.append("=");
                output.append("\"");
                output.append(prompt.as_str());
                output.append(": \"");
                output.append("\n");
                assert(output@ =~= "set /p "@ + variable@ + "="@ + "\""@ + prompt@ + ": \""@
                    + "\n"@);
            },
        }
        Ok(output)
    }

    /// A call of `exit`.
    fn compile_exit(&self, args: &Vec<Expr>) -> (r: Result<String, RosellaError>)
        ensures
            emitted(r, emit_exit(self.target().shell, expr_views(args@))),
    {
        if args.len() == 0 {
            return Err(RosellaError::compile("exit requires an exit code argument"));
        }
        let code = match &args[0] {
            Expr::Number(n) => n,
            _ => return Err(RosellaError::compile("First argument of exit must be a number")),
        };
        let mut output = match self.shell {
            Shell::Bash => String::from_str("exit "),
            Shell::Batch => String::from_str("exit /b "),
        };
        output.append(code.as_str());
        output.append("\n");
        Ok(output)
    }

    /// A call of `exists`.
    fn compile_exists(&self, args: &Vec<Expr>) -> (r: Result<String, RosellaError>)
        ensures
            emitted(r, emit_exists(self.target().os, expr_views(args@))),
    {
        if args.len() == 0 {
            return Err(RosellaError::compile("exists requires a file path argument"));
        }
        let mut output = String::from_str("-e \"");
        self.append_path(&mut output, args)?;
        output.append("\"");
        Ok(output)
    }

    /// A call of a standard function.
    fn compile_std_function_call(&self, name: &String, args: &Vec<Expr>) -> (r: Result<
        String,
        RosellaError,
    >)
        requires
            is_standard_function(name@),
        ensures
            emitted(r, emit_standard_call(self.target(), name@, expr_views(args@))),
    {
        let name = name.as_str();
        if same_text(name, "cd") {
            self.compile_path_command("cd ", args, "cd requires a directory argument")
        } else if same_text(name, "print") || same_text(name, "echo") {
            self.compile_echo(args)
        } else if same_text(name, "make_dir") || same_text(name, "mkdir") {
            let command = match self.shell {
                Shell::Bash => "mkdir -p ",
                Shell::Batch => "mkdir ",
            };
            self.compile_path_command(command, args, "make_dir requires at least one argument")
        } else if same_text(name, "remove_dir") || same_text(name, "rmdir") {
            self.compile_path_command("rmdir ", args, "remove_dir requires at least one argument")
        } else if same_text(name, "remove") || same_text(name, "del") {
            let command = match self.shell {
                Shell::Bash => "rm -f ",
                Shell::Batch => "del /Q ",
            };
            self.compile_path_command(command, args, "remove requires at least one argument")
        } else if same_text(name, "path") {
            self.compile_path_call(args)
        } else if same_text(name, "copy") || same_text(name, "cp") {
            let command = match self.shell {
                Shell::Bash => "cp ",
                Shell::Batch => "copy ",
            };
            self.compile_transfer(
                command,
                args,
                "copy/cp requires exactly two arguments",
                "copy/cp requires path() as argument",
            )
        } else if same_text(name, "move") || same_text(name, "mv") {
            let command = match self.shell {
                Shell::Bash => "mv ",
                Shell::Batch => "move ",
            };
            self.compile_transfer(
                command,
                args,
                "move/mv requires exactly two arguments",
                "move/mv requires path() as argument",
            )
        } else if same_text(name, "read") {
            self.compile_read(args)
        } else if same_text(name, "exit") {
            self.compile_exit(args)
        } else {
            self.compile_exists(args)
        }
    }

    /// One argument of a call that is emitted as it stands, appended to `output`.
    fn append_literal_argument(&self, output: &mut String, arg: &Expr) -> (r: Result<
        (),
        RosellaError,
    >)
        ensures
            match literal_argument(self.target().shell, arg@) {
                Ok(t) => r is Ok && final(output)@ == old(output)@ + t,
                Err(e) => r matches Err(x) && x@ == e,
            },
    {
        match arg {
            Expr::Identifier(id) => {
                output.append("\"");
                match self.shell {
                    Shell::Bash => {
                        output.append("$");
                        output.append(id.as_str());
                    },
                    Shell::Batch => {
                        output.append("%%");
                        output.append(id.as_str());
                        output.append("%%");
                    },
                }
                output.append("\" ");
                assert(output@ =~= old(output)@ + ("\""@ + reference(self.shell, id@) + "\" "@));
                Ok(())
            },
            Expr::String(s) => {
                output.append("\"");
                output.append(s.as_str());
                output.append("\" ");
                assert(output@ =~= old(output)@ + ("\""@ + s@ + "\" "@));
                Ok(())
            },
            Expr::Number(n) => {
                output.append(n.as_str());
                output.append(" ");
                assert(output@ =~= old(output)@ + (n@ + " "@));
                Ok(())
            },
            _ => Err(RosellaError::compile("Unsupported argument type in function call")),
        }
    }

    /// A call: a standard function is translated, any other name becomes a command line.
    fn compile_function_call(&self, name: &String, args: &Vec<Expr>) -> (r: Result<
        String,
        RosellaError,
    >)
        ensures
            emitted(r, emit_call(self.target(), name@, expr_views(args@))),
    {
        if is_std_function(name.as_str()) {
            return self.compile_std_function_call(name, args);
        }
        let mut output = String::from_str(name.as_str());
        output.append(" ");
        let ghost pieces = literal_arguments(self.shell, expr_views(args@));
        let ghost start = output@;
        let mut i: usize = 0;
        while i < args.len()
            invariant
                i <= args.len(),
                !is_standard_function(name@),
                pieces == literal_arguments(self.shell, expr_views(args@)),
                followed_by(Ok(start), concat(pieces)) == followed_by(
                    Ok(output@),
                    concat_from(pieces, i as int),
                ),
            decreases args.len() - i,
        {
            proof {
                lemma_concat_step(pieces, i as int, output@);
            }
            self.append_literal_argument(&mut output, &args[i])?;
            i += 1;
        }
        proof {
            lemma_concat_end(pieces, i as int, output@);
        }
        output.append("\n");
        Ok(output)
    }

    /// The operator as it is written under the active type tag.
    fn format_operator(&self, operator: BinaryOp, tag: Option<&String>) -> (r: Result<
        &'static str,
        RosellaError,
    >)
        ensures
            match emit_operator(self.target().shell, tag_view(tag), operator) {
                Ok(t) => r matches Ok(s) && s@ == t,
                Err(e) => r matches Err(x) && x@ == e,
            },
    {
        let condition_type = get_condition_type(tag)?;
        let unknown = "Operator is not implemented for this type tag and shell";
        match operator {
            BinaryOp::Add => Ok("+"),
            BinaryOp::Subtract => Ok("-"),
            BinaryOp::Multiply => Ok("*"),
            BinaryOp::Divide => Ok("/"),
            _ => {
                if same_text(condition_type.as_str(), "str") {
                    match (self.shell, operator) {
                        (_, BinaryOp::Equal) => Ok("=="),
                        (_, BinaryOp::NotEqual) => Ok("!="),
                        (Shell::Bash, BinaryOp::LessThan) => Ok("<"),
                        (Shell::Bash, BinaryOp::GreaterThan) => Ok(">"),
                        _ => Err(RosellaError::compile(unknown)),
                    }
                } else if same_text(condition_type.as_str(), "int") {
                    match (self.shell, operator) {
                        (Shell::Bash, BinaryOp::Equal) => Ok("-eq"),
                        (Shell::Bash, BinaryOp::NotEqual) => Ok("-ne"),
                        (Shell::Bash, BinaryOp::LessThan) => Ok("-lt"),
                        (Shell::Bash, BinaryOp::GreaterThan) => Ok("-gt"),
                        (Shell::Bash, BinaryOp::LessThanEq) => Ok("-le"),
                        (Shell::Bash, _) => Ok("-ge"),
                        (Shell::Batch, BinaryOp::Equal) => Ok("EQU"),
                        (Shell::Batch, BinaryOp::NotEqual) => Ok("NEQ"),
                        (Shell::Batch, BinaryOp::LessThan) => Ok("LSS"),
                        (Shell::Batch, BinaryOp::GreaterThan) => Ok("GTR"),
                        (Shell::Batch, BinaryOp::LessThanEq) => Ok("LEQ"),
                        (Shell::Batch, _) => Ok("GEQ"),
                    }
                } else {
                    Err(RosellaError::compile(unknown))
                }
            },
        }
    }

    /// An expression under the active type tag.
    fn compile_expr(&self, expr: &Expr, tag: Option<&String>) -> (r: Result<String, RosellaError>)
        ensures
            emitted(r, emit_expr(self.target(), tag_view(tag), expr@)),
        decreases expr,
    {
        match expr {
            Expr::Number(n) => Ok(String::from_str(n.as_str())),
            Expr::String(s) => {
                let mut output = String::from_str("\"");
                output.append(s.as_str());
                output.append("\"");
                Ok(output)
            },
            Expr::Identifier(id) => {
                let mut output = String::new();
                match self.shell {
                    Shell::Batch => {
                        output.append("%%");
                        output.append(id.as_str());
                        output.append("%%");
                    },
                    Shell::Bash => {
                        output.append("$");
                        output.append(id.as_str());
                    },
                }
                assert(output@ =~= reference(self.shell, id@));
                Ok(output)
            },
            Expr::Binary { left, operator, right } => {
                let left_str = self.compile_expr(left, tag)?;
                let operator_str = self.format_operator(*operator, tag)?;
                let right_str = self.compile_expr(right, tag)?;
                let condition_type = get_condition_type(tag)?;
                let bash = match self.shell {
                    Shell::Bash => true,
                    Shell::Batch => false,
                };
                let mut output = String::new();
                if bash && same_text(condition_type.as_str(), "int") {
                    match operator {
                        BinaryOp::Add
                        | BinaryOp::Subtract
                        | BinaryOp::Multiply
                        | BinaryOp::Divide => {
                            output.append("$((");
                            output.append(left_str.as_str());
                            output.append(" ");
                            output.append(operator_str);
                            output.append(" ");
                            output.append(right_str.as_str());
                            output.append("))");
                            assert(output@ =~= "$(("@ + left_str@ + " "@ + operator_str@ + " "@
                                + right_str@ + "))"@);
                        },
                        _ => {
                            output.append(left_str.as_str());
                            output.append(" ");
                            output.append(operator_str);
                            output.append(" ");
                            output.append(right_str.as_str());
                            assert(output@ =~= left_str@ + " "@ + operator_str@ + " "@
                                + right_str@);
                        },
                    }
                    Ok(output)
                } else if bash && same_text(condition_type.as_str(), "str") {
                    output.append("\"");
                    output.append(left_str.as_str());
                    output.append(right_str.as_str());
                    output.append("\"");
                    assert(output@ =~= "\""@ + left_str@ + right_str@ + "\""@);
                    Ok(output)
                } else {
                    Err(
                        RosellaError::compile(
                            "Binary expressions are not implemented for this shell and type tag",
                        ),
                    )
                }
            },
            Expr::Call { name, args } => self.compile_function_call(name, args),
        }
    }

    /// One item of a raw instruction, appended to `output`.
    fn append_raw_part(&self, output: &mut String, item: &Expr, tag: Option<&String>) -> (r: Result<
        (),
        RosellaError,
    >)
        ensures
            match raw_part(self.target(), tag_view(tag), item@) {
                Ok(t) => r is Ok && final(output)@ == old(output)@ + t,
                Err(e) => r matches Err(x) && x@ == e,
            },
    {
        match item {
            Expr::String(s) => {
                output.append("\"");
                output.append(s.as_str());
                output.append("\" ");
                assert(output@ =~= old(output)@ + ("\""@ + s@ + "\" "@));
                Ok(())
            },
            Expr::Identifier(s) => {
                output.append(s.as_str());
                output.append(" ");
                assert(output@ =~= old(output)@ + (s@ + " "@));
                Ok(())
            },
            Expr::Binary { left, operator, right } => {
                let left_str = self.compile_expr(left, tag)?;
                let operator_str = self.format_operator(*operator, tag)?;
                let right_str = self.compile_expr(right, tag)?;
                output.append(left_str.as_str());
                output.append(" ");
                output.append(operator_str);
                output.append(" ");
                output.append(right_str.as_str());
                output.append(" ");
                assert(output@ =~= old(output)@ + (left_str@ + " "@ + operator_str@ + " "@
                    + right_str@ + " "@));
                Ok(())
            },
            Expr::Number(n) => {
                output.append(n.as_str());
                output.append(" ");
                assert(output@ =~= old(output)@ + (n@ + " "@));
                Ok(())
            },
            _ => Err(RosellaError::compile("Unsupported raw instruction")),
        }
    }

    /// A raw instruction: its items, each followed by a space, then a newline.
    fn compile_raw_instruction(&self, instructions: &Vec<Expr>, tag: Option<&String>) -> (r: Result<
        String,
        RosellaError,
    >)
        ensures
            emitted(r, emit_raw(self.target(), tag_view(tag), expr_views(instructions@))),
    {
        let mut output = String::new();
        let ghost pieces = raw_parts(self.target(), tag_view(tag), expr_views(instructions@));
        let mut i: usize = 0;
        while i < instructions.len()
            invariant
                i <= instructions.len(),
                pieces == raw_parts(self.target(), tag_view(tag), expr_views(instructions@)),
                followed_by(Ok(Seq::empty()), concat(pieces)) == followed_by(
                    Ok(output@),
                    concat_from(pieces, i as int),
                ),
            decreases instructions.len() - i,
        {
            proof {
                lemma_concat_step(pieces, i as int, output@);
            }
            self.append_raw_part(&mut output, &instructions[i], tag)?;
            i += 1;
        }
        proof {
            lemma_concat_end(pieces, i as int, output@);
        }
        let ghost body = output@;
        output.append("\n");
        assert(Seq::<char>::empty() + body =~= body);
        Ok(output)
    }

    /// The statements of a block, one after another.
    fn compile_block(&self, block: &Vec<Stmt>, tag: Option<&String>) -> (r: Result<
        String,
        RosellaError,
    >)
        ensures
            emitted(r, emit_block(self.target(), tag_view(tag), stmt_views(block@))),
        decreases block, 0nat,
    {
        let mut output = String::new();
        let ghost pieces = block_parts(self.target(), tag_view(tag), stmt_views(block@));
        let mut i: usize = 0;
        while i < block.len()
            invariant
                i <= block.len(),
                pieces == block_parts(self.target(), tag_view(tag), stmt_views(block@)),
                followed_by(Ok(Seq::empty()), concat(pieces)) == followed_by(
                    Ok(output@),
                    concat_from(pieces, i as int),
                ),
            decreases block.len() - i,
        {
            proof {
                lemma_concat_step(pieces, i as int, output@);
            }
            let piece = self.compile_statement(&block[i], tag)?;
            output.append(piece.as_str());
            i += 1;
        }
        proof {
            lemma_concat_end(pieces, i as int, output@);
            assert(Seq::<char>::empty() + output@ =~= output@);
        }
        Ok(output)
    }

    /// An expression between a fixed opening and a fixed closing.
    fn compile_wrapped_expr(&self, opening: &str, expr: &Expr, tag: Option<&String>, closing: &str)
        -> (r: Result<String, RosellaError>)
        ensures
            emitted(
                r,
                wrapped(opening@, emit_expr(self.target(), tag_view(tag), expr@), closing@),
            ),
    {
        let text = self.compile_expr(expr, tag)?;
        let mut output = String::from_str(opening);
        output.append(text.as_str());
        output.append(closing);
        Ok(output)
    }

    /// A block between a fixed opening and a fixed closing.
    fn compile_wrapped_block(
        &self,
        opening: &str,
        block: &Vec<Stmt>,
        tag: Option<&String>,
        closing: &str,
    ) -> (r: Result<String, RosellaError>)
        ensures
            emitted(
                r,
                wrapped(
                    opening@,
                    emit_block(self.target(), tag_view(tag), stmt_views(block@)),
                    closing@,
                ),
            ),
        decreases block, 1nat,
    {
        let text = self.compile_block(block, tag)?;
        let mut output = String::from_str(opening);
        output.append(text.as_str());
        output.append(closing);
        Ok(output)
    }

    /// A binding: the name, `=`, the value; Batch sets it with `set`.
    fn compile_let_stmt(&self, name: &String, value: &Expr, parent_statement: &Stmt) -> (r: Result<
        String,
        RosellaError,
    >)
        requires
            parent_statement matches Stmt::Let { name: n, value: v, .. } && n == name && v == value,
        ensures
            emitted(r, emit_statement(self.target(), None, parent_statement@)),
    {
        let mut opening = String::new();
        match self.shell {
            Shell::Batch => {
                opening.append("set ");
                opening.append(name.as_str());
                opening.append("=");
                assert(opening@ =~= "set "@ + name@ + "="@);
            },
            Shell::Bash => {
                opening.append(name.as_str());
                opening.append("=");
                assert(opening@ =~= name@ + "="@);
            },
        }
        self.compile_wrapped_expr(opening.as_str(), value, own_tag(parent_statement), "\n")
    }

    /// A conditional.
    fn compile_if_stmt(
        &self,
        condition: &Expr,
        then_branch: &Vec<Stmt>,
        else_branch: Option<&Vec<Stmt>>,
        parent_statement: &Stmt,
    ) -> (r: Result<String, RosellaError>)
        requires
            parent_statement matches Stmt::If { condition: c, then_branch: t, else_branch: e, .. }
                && c == condition && t == then_branch && match else_branch {
                Some(other) => e == Some(*other),
                None => e is None,
            },
        ensures
            emitted(r, emit_statement(self.target(), None, parent_statement@)),
        decreases parent_statement, 1nat,
    {
        let own = own_tag(parent_statement);
        match self.shell {
            Shell::Batch => {
                let mut output = self.compile_wrapped_expr("if ", condition, own, " (\n")?;
                let then_str = self.compile_block(then_branch, own)?;
                let rest = match else_branch {
                    Some(other) => self.compile_wrapped_block(") else (\n", other, own, ")\n")?,
                    None => String::from_str(")\n"),
                };
                let ghost head = output@;
                output.append(then_str.as_str());
                output.append(rest.as_str());
                assert(output@ =~= head + (then_str@ + rest@));
                Ok(output)
            },
            Shell::Bash => {
                let mut output = self.compile_wrapped_expr(
                    "if [[ ",
                    condition,
                    own,
                    " ]]; then\n",
                )?;
                let then_str = self.compile_block(then_branch, own)?;
                let rest = match else_branch {
                    Some(other) => self.compile_wrapped_block("else\n", other, own, "fi\n")?,
                    None => String::from_str("fi\n"),
                };
                let ghost head = output@;
                output.append(then_str.as_str());
                output.append(rest.as_str());
                assert(output@ =~= head + (then_str@ + rest@));
                Ok(output)
            },
        }
    }

    /// Whether a `with` block that names `os` is kept for this target.
    fn keeps_block(&self, os: &String) -> (r: bool)
        ensures
            r == os_matches(self.target().os, os@),
    {
        match self.os {
            OS::Windows => same_text(os.as_str(), "windows"),
            OS::Linux => same_text(os.as_str(), "linux"),
        }
    }

    /// A block for one operating system: its body where the target matches, else nothing.
    fn compile_with_stmt(
        &self,
        os: &String,
        body: &Vec<Stmt>,
        tag: Option<&String>,
        parent_statement: &Stmt,
    ) -> (r: Result<String, RosellaError>)
        requires
            parent_statement matches Stmt::With { os: o, body: b } && o == os && b == body,
        ensures
            emitted(r, emit_statement(self.target(), tag_view(tag), parent_statement@)),
        decreases parent_statement, 1nat,
    {
        if self.keeps_block(os) {
            self.compile_block(body, tag)
        } else {
            Ok(String::new())
        }
    }

    /// A loop.
    fn compile_while_stmt(&self, condition: &Expr, body: &Vec<Stmt>, parent_statement: &Stmt) -> (r:
        Result<String, RosellaError>)
        requires
            parent_statement matches Stmt::While { condition: c, body: b, .. } && c == condition
                && b == body,
        ensures
            emitted(r, emit_statement(self.target(), None, parent_statement@)),
        decreases parent_statement, 1nat,
    {
        let own = own_tag(parent_statement);
        match self.shell {
            Shell::Batch => {
                let mut output = self.compile_wrapped_expr(":while ", condition, own, " (\n")?;
                let body_str = self.compile_block(body, own)?;
                let ghost head = output@;
                output.append(body_str.as_str());
                output.append(")\n");
                assert(output@ =~= head + (body_str@ + ")\n"@));
                Ok(output)
            },
            Shell::Bash => {
                let mut output = self.compile_wrapped_expr(
                    "while [[ ",
                    condition,
                    own,
                    " ]]; do\n",
                )?;
                let body_str = self.compile_block(body, own)?;
                let ghost head = output@;
                output.append(body_str.as_str());
                output.append("done\n");
                assert(output@ =~= head + (body_str@ + "done\n"@));
                Ok(output)
            },
        }
    }

    /// The line that binds one parameter, appended to `output`.
    fn append_parameter_line(output: &mut String, parameter: &Expr, index: usize) -> (r: Result<
        (),
        RosellaError,
    >)
        requires
            index < usize::MAX,
        ensures
            match parameter_line(parameter@, index as int) {
                Ok(t) => r is Ok && final(output)@ == old(output)@ + t,
                Err(e) => r matches Err(x) && x@ == e,
            },
    {
        match parameter {
            Expr::Identifier(id) => {
                output.append("local ");
                output.append(id.as_str());
                output.append("=$");
                append_decimal(output, index + 1);
                output.append("\n");
                assert(output@ =~= old(output)@ + ("local "@ + id@ + "=$"@ + decimal(
                    (index + 1) as nat,
                ) + "\n"@));
                Ok(())
            },
            _ => Err(RosellaError::compile("Function arguments must be identifiers")),
        }
    }

    /// The lines that bind the parameters of a function to their positions.
    fn compile_parameters(args: &Option<Vec<Expr>>) -> (r: Result<String, RosellaError>)
        ensures
            emitted(
                r,
                match args {
                    Some(parameters) => concat(parameter_lines(expr_views(parameters@))),
                    None => Ok(Seq::empty()),
                },
            ),
    {
        let mut output = String::new();
        if let Some(arguments) = args {
            let ghost pieces = parameter_lines(expr_views(arguments@));
            let mut index: usize = 0;
            while index < arguments.len()
                invariant
                    index <= arguments.len(),
                    args matches Some(a) && a == arguments,
                    pieces == parameter_lines(expr_views(arguments@)),
                    concat(pieces) == followed_by(Ok(output@), concat_from(pieces, index as int)),
                decreases arguments.len() - index,
            {
                proof {
                    lemma_concat_step(pieces, index as int, output@);
                }
                Self::append_parameter_line(&mut output, &arguments[index], index)?;
                index += 1;
            }
            proof {
                lemma_concat_end(pieces, index as int, output@);
            }
        }
        Ok(output)
    }

    /// A function declaration.
    fn compile_function(
        &self,
        name: &String,
        args: &Option<Vec<Expr>>,
        body: &Vec<Stmt>,
        tag: Option<&String>,
        parent_statement: &Stmt,
    ) -> (r: Result<String, RosellaError>)
        requires
            parent_statement matches Stmt::Function { name: n, arguments: a, body: b } && n == name
                && a == args && b == body,
        ensures
            emitted(r, emit_statement(self.target(), tag_view(tag), parent_statement@)),
        decreases parent_statement, 1nat,
    {
        match self.shell {
            Shell::Batch => Err(
                RosellaError::compile("Batch shell compilation for functions not implemented yet"),
            ),
            Shell::Bash => {
                let mut output = String::from_str(name.as_str());
                output.append("() {\n");
                let lines = Self::compile_parameters(args)?;
                let body_str = self.compile_block(body, tag)?;
                let ghost head = output@;
                output.append(lines.as_str());
                output.append(body_str.as_str());
                output.append("}\n");
                assert(output@ =~= head + (lines@ + (body_str@ + "}\n"@)));
                Ok(output)
            },
        }
    }

    /// A statement, under the type tag of the nearest enclosing `if` or `while`.
    fn compile_statement(&self, statement: &Stmt, tag: Option<&String>) -> (r: Result<
        String,
        RosellaError,
    >)
        ensures
            emitted(r, emit_statement(self.target(), tag_view(tag), statement@)),
        decreases statement, 2nat,
    {
        match statement {
            Stmt::Let { name, value, .. } => self.compile_let_stmt(name, value, statement),
            Stmt::If { condition, then_branch, else_branch, .. } => self.compile_if_stmt(
                condition,
                then_branch,
                else_branch.as_ref(),
                statement,
            ),
            Stmt::With { os, body } => self.compile_with_stmt(os, body, tag, statement),
            Stmt::While { condition, body, .. } => self.compile_while_stmt(
                condition,
                body,
                statement,
            ),
            Stmt::Function { name, arguments, body } => self.compile_function(
                name,
                arguments,
                body,
                tag,
                statement,
            ),
            Stmt::Expression(expr) => match expr {
                Expr::Call { name, args } => self.compile_function_call(name, args),
                _ => Err(RosellaError::compile("Expression is not a function call")),
            },
            Stmt::RawInstruction(instructions) => self.compile_raw_instruction(instructions, tag),
        }
    }
}

} // verus!
