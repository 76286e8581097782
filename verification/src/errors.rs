//! Runtime errors and how they read.

use vstd::prelude::*;
use crate::text::{append_text, decimal, push_decimal, string_of, chars_of};

verus! {

/// A position in the source text, counted from 1.
#[derive(Clone, Copy, Debug)]
pub struct Span {
    pub line: usize,
    pub column: usize,
}

/// An error raised while executing a program.
#[derive(Debug)]
pub enum RuntimeError {
    UndefinedVariable { name: String },
    UndefinedFunction { name: String },
    UndefinedClass { name: String },
    TypeError { message: String },
    InvalidOperation { message: String },
    BreakOutsideLoop,
    ReturnOutsideFunction,
    UncaughtException,
    ParseError(String),
    EnvironmentError(String),
    UndefinedVariableAt { name: String, span: Span },
    TypeErrorAt { message: String, span: Span },
    InvalidOperationAt { message: String, span: Span },
    BreakOutsideLoopAt { span: Span },
    ReturnOutsideFunctionAt { span: Span },
    RuntimeFailure { message: String },
}

/// What an error says, with each message taken as its characters.
pub ghost enum ErrSpec {
    UndefinedVariable(Seq<char>),
    UndefinedFunction(Seq<char>),
    UndefinedClass(Seq<char>),
    TypeError(Seq<char>),
    InvalidOperation(Seq<char>),
    BreakOutsideLoop,
    ReturnOutsideFunction,
    UncaughtException,
    ParseError(Seq<char>),
    EnvironmentError(Seq<char>),
    UndefinedVariableAt(Seq<char>, Span),
    TypeErrorAt(Seq<char>, Span),
    InvalidOperationAt(Seq<char>, Span),
    BreakOutsideLoopAt(Span),
    ReturnOutsideFunctionAt(Span),
    RuntimeFailure(Seq<char>),
}

impl View for RuntimeError {
    type V = ErrSpec;

    open spec fn view(&self) -> ErrSpec {
        match self {
            RuntimeError::UndefinedVariable { name } => ErrSpec::UndefinedVariable(name@),
            RuntimeError::UndefinedFunction { name } => ErrSpec::UndefinedFunction(name@),
            RuntimeError::UndefinedClass { name } => ErrSpec::UndefinedClass(name@),
            RuntimeError::TypeError { message } => ErrSpec::TypeError(message@),
            RuntimeError::InvalidOperation { message } => ErrSpec::InvalidOperation(message@),
            RuntimeError::BreakOutsideLoop => ErrSpec::BreakOutsideLoop,
            RuntimeError::ReturnOutsideFunction => ErrSpec::ReturnOutsideFunction,
            RuntimeError::UncaughtException => ErrSpec::UncaughtException,
            RuntimeError::ParseError(m) => ErrSpec::ParseError(m@),
            RuntimeError::EnvironmentError(m) => ErrSpec::EnvironmentError(m@),
            RuntimeError::UndefinedVariableAt { name, span } => ErrSpec::UndefinedVariableAt(name@, *span),
            RuntimeError::TypeErrorAt { message, span } => ErrSpec::TypeErrorAt(message@, *span),
            RuntimeError::InvalidOperationAt { message, span } => ErrSpec::InvalidOperationAt(message@, *span),
            RuntimeError::BreakOutsideLoopAt { span } => ErrSpec::BreakOutsideLoopAt(*span),
            RuntimeError::ReturnOutsideFunctionAt { span } => ErrSpec::ReturnOutsideFunctionAt(*span),
            RuntimeError::RuntimeFailure { message } => ErrSpec::RuntimeFailure(message@),
        }
    }
}

/// How a span reads: "line L, column C".
pub open spec fn span_text(span: Span) -> Seq<char> {
    "line "@ + decimal(span.line as nat) + ", column "@ + decimal(span.column as nat)
}

/// The `n`-th line (counted from 1) of `src`, without its line break; empty
/// when `src` has fewer lines.
pub open spec fn line_of(src: Seq<char>, n: nat) -> Seq<char>
    decreases src.len(),
{
    if src.len() == 0 {
        Seq::empty()
    } else if src[0] == '\n' {
        if n <= 1 {
            Seq::empty()
        } else {
            line_of(src.drop_first(), (n - 1) as nat)
        }
    } else if n <= 1 {
        seq![src[0]] + line_of(src.drop_first(), n)
    } else {
        line_of(src.drop_first(), n)
    }
}

/// `n` spaces.
pub open spec fn spaces(n: nat) -> Seq<char> {
    Seq::new(n, |i: int| ' ')
}

/// The source line that a span points into, with a caret under its column.
pub open spec fn error_context_text(span: Span, src: Seq<char>) -> Seq<char> {
    line_of(src, span.line as nat) + "\n"@ + spaces(
        if span.column >= 1 { (span.column - 1) as nat } else { 0 },
    ) + "^"@
}

/// How an error reads.
pub open spec fn error_text(e: RuntimeError) -> Seq<char> {
    match e {
        RuntimeError::UndefinedVariable { name } => "Undefined variable '"@ + name@ + "'"@,
        RuntimeError::UndefinedFunction { name } => "Undefined function '"@ + name@ + "'"@,
        RuntimeError::UndefinedClass { name } => "Undefined class '"@ + name@ + "'"@,
        RuntimeError::TypeError { message } => "Type error: "@ + message@,
        RuntimeError::InvalidOperation { message } => "Invalid operation: "@ + message@,
        RuntimeError::BreakOutsideLoop => "Break outside of loop"@,
        RuntimeError::ReturnOutsideFunction => "Return outside of function"@,
        RuntimeError::UncaughtException => "Uncaught exception"@,
        RuntimeError::ParseError(m) => "Parse error: "@ + m@,
        RuntimeError::EnvironmentError(m) => "Environment error: "@ + m@,
        RuntimeError::UndefinedVariableAt { name, span } => "Undefined variable '"@ + name@ + "' at "@
            + span_text(span),
        RuntimeError::TypeErrorAt { message, span } => "Type error: "@ + message@ + " at "@ + span_text(span),
        RuntimeError::InvalidOperationAt { message, span } => "Invalid operation: "@ + message@ + " at "@
            + span_text(span),
        RuntimeError::BreakOutsideLoopAt { span } => "Break outside of loop at "@ + span_text(span),
        RuntimeError::ReturnOutsideFunctionAt { span } => "Return outside of function at "@ + span_text(span),
        RuntimeError::RuntimeFailure { message } => "Runtime failure: "@ + message@,
    }
}

/// The detailed message: an error with a span shows the source line when the
/// source is given, else the span; any other error shows its text.
pub open spec fn detailed_text(e: RuntimeError, src: Option<Seq<char>>) -> Seq<char> {
    let (head, span) = match e {
        RuntimeError::UndefinedVariableAt { name, span } => ("Undefined variable '"@ + name@ + "'"@, Some(span)),
        RuntimeError::TypeErrorAt { message, span } => ("Type error: "@ + message@, Some(span)),
        RuntimeError::InvalidOperationAt { message, span } => ("Invalid operation: "@ + message@, Some(span)),
        RuntimeError::BreakOutsideLoopAt { span } => ("Break statement outside of loop"@, Some(span)),
        RuntimeError::ReturnOutsideFunctionAt { span } => ("Return statement outside of function"@, Some(span)),
        _ => (error_text(e), None),
    };
    match span {
        Some(sp) => match src {
            Some(s) => "\u{26a0}\u{fe0f}  "@ + head + "\n"@ + error_context_text(sp, s),
            None => "\u{26a0}\u{fe0f}  "@ + head + " at "@ + span_text(sp),
        },
        None => "\u{26a0}\u{fe0f}  "@ + head,
    }
}

fn usize_text(n: usize) -> (r: String)
    ensures
        r@ == decimal(n as nat),
{
    let mut v: Vec<char> = Vec::new();
    push_decimal(&mut v, n as u64);
    assert(v@ =~= decimal(n as nat));
    string_of(&v)
}

impl Span {
    /// A copy of the span.
    pub fn copy_span(&self) -> (r: Span)
        ensures
            r == *self,
    {
        Span { line: self.line, column: self.column }
    }

    /// How the span reads: "line L, column C".
    pub fn to_display_string(&self) -> (r: String)
        ensures
            r@ == span_text(*self),
    {
        let mut r = String::from_str("line ");
        append_text(&mut r, &usize_text(self.line));
        r.append(", column ");
        append_text(&mut r, &usize_text(self.column));
        r
    }

    /// The source line that the span points into, with a caret under its column.
    pub fn error_context(&self, src: &str) -> (r: String)
        ensures
            r@ == error_context_text(*self, src@),
    {
        let chars = chars_of(src);
        let mut line: Vec<char> = Vec::new();
        let mut n: usize = self.line;
        let mut i: usize = 0;
        let mut stop = false;
        assert(chars@.skip(0) =~= chars@);
        while i < chars.len() && !stop
            invariant
                i <= chars@.len(),
                chars@ == src@,
                !stop ==> line@ + line_of(chars@.skip(i as int), n as nat) == line_of(src@, self.line as nat),
                stop ==> line@ == line_of(src@, self.line as nat),
            decreases chars@.len() - i,
        {
            let ghost rest = chars@.skip(i as int);
            assert(rest.drop_first() =~= chars@.skip(i + 1));
            let c = chars[i];
            if c == '\n' {
                if n <= 1 {
                    stop = true;
                } else {
                    n = n - 1;
                }
            } else if n <= 1 {
                line.push(c);
            }
            i = i + 1;
        }
        if !stop {
            assert(chars@.skip(i as int) =~= Seq::<char>::empty());
        }
        let mut r = string_of(&line);
        r.append("\n");
        let pad: usize = if self.column >= 1 { self.column - 1 } else { 0 };
        let mut k: usize = 0;
        while k < pad
            invariant
                k <= pad,
                r@ == line_of(src@, self.line as nat) + "\n"@ + spaces(k as nat),
            decreases pad - k,
        {
            crate::text::push_char(&mut r, ' ');
            assert(spaces((k + 1) as nat) =~= spaces(k as nat).push(' '));
            k = k + 1;
        }
        r.append("^");
        r
    }
}

fn text_of(a: &str, b: &String) -> (r: String)
    ensures
        r@ == a@ + b@,
{
    let mut r = String::from_str(a);
    append_text(&mut r, b);
    r
}

fn text_of3(a: &str, b: &String, c: &str) -> (r: String)
    ensures
        r@ == a@ + b@ + c@,
{
    let mut r = String::from_str(a);
    append_text(&mut r, b);
    r.append(c);
    r
}

impl RuntimeError {
    /// How the error reads.
    pub fn to_display_string(&self) -> (r: String)
        ensures
            r@ == error_text(*self),
    {
        match self {
            RuntimeError::UndefinedVariable { name } => text_of3("Undefined variable '", name, "'"),
            RuntimeError::UndefinedFunction { name } => text_of3("Undefined function '", name, "'"),
            RuntimeError::UndefinedClass { name } => text_of3("Undefined class '", name, "'"),
            RuntimeError::TypeError { message } => text_of("Type error: ", message),
            RuntimeError::InvalidOperation { message } => text_of("Invalid operation: ", message),
            RuntimeError::BreakOutsideLoop => String::from_str("Break outside of loop"),
            RuntimeError::ReturnOutsideFunction => String::from_str("Return outside of function"),
            RuntimeError::UncaughtException => String::from_str("Uncaught exception"),
            RuntimeError::ParseError(m) => text_of("Parse error: ", m),
            RuntimeError::EnvironmentError(m) => text_of("Environment error: ", m),
            RuntimeError::UndefinedVariableAt { name, span } => {
                let mut r = text_of3("Undefined variable '", name, "' at ");
                append_text(&mut r, &span.to_display_string());
                r
            },
            RuntimeError::TypeErrorAt { message, span } => {
                let mut r = text_of3("Type error: ", message, " at ");
                append_text(&mut r, &span.to_display_string());
                r
            },
            RuntimeError::InvalidOperationAt { message, span } => {
                let mut r = text_of3("Invalid operation: ", message, " at ");
                append_text(&mut r, &span.to_display_string());
                r
            },
            RuntimeError::BreakOutsideLoopAt { span } => {
                let mut r = String::from_str("Break outside of loop at ");
                append_text(&mut r, &span.to_display_string());
                r
            },
            RuntimeError::ReturnOutsideFunctionAt { span } => {
                let mut r = String::from_str("Return outside of function at ");
                append_text(&mut r, &span.to_display_string());
                r
            },
            RuntimeError::RuntimeFailure { message } => text_of("Runtime failure: ", message),
        }
    }

    /// The message with its context: an error that carries a span shows the
    /// source line and a caret when `source` is given, and the span otherwise.
    pub fn detailed_message(&self, source: Option<&str>) -> (r: String)
        ensures
            r@ == detailed_text(*self, match source { Some(s) => Some(s@), None => None }),
    {
        let (head, span): (String, Option<&Span>) = match self {
            RuntimeError::UndefinedVariableAt { name, span } => (text_of3("Undefined variable '", name, "'"), Some(span)),
            RuntimeError::TypeErrorAt { message, span } => (text_of("Type error: ", message), Some(span)),
            RuntimeError::InvalidOperationAt { message, span } => (text_of("Invalid operation: ", message), Some(span)),
            RuntimeError::BreakOutsideLoopAt { span } => (String::from_str("Break statement outside of loop"), Some(span)),
            RuntimeError::ReturnOutsideFunctionAt { span } => (String::from_str("Return statement outside of function"), Some(span)),
            _ => (self.to_display_string(), None),
        };
        let mut msg = String::from_str("\u{26a0}\u{fe0f}  ");
        append_text(&mut msg, &head);
        match span {
            Some(sp) => match source {
                Some(src) => {
                    msg.append("\n");
                    append_text(&mut msg, &sp.error_context(src));
                },
                None => {
                    msg.append(" at ");
                    append_text(&mut msg, &sp.to_display_string());
                },
            },
            None => {},
        }
        msg
    }
}

} // verus!
