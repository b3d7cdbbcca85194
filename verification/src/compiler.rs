//! Compiling the words of an expression into the functions they name.
//!
//! Each word compiles on its own, except the words that take the next word
//! of the expression as an argument: `drop` (also written `!`) removes it,
//! `clamp` and `get` compile it (which may take further words in turn), and
//! `pipe` compiles it on its own. A name that is none of the built-in words
//! compiles to a reference, resolved when the expression runs.

use vstd::prelude::*;
use crate::ast::{Expression, Template, TemplateV, Word, WordV};
use crate::text::{same_text, string_of};

verus! {

/// A compiled word.
pub enum Compiled<'a> {
    Hello,
    Identity,
    Incr,
    Decr,
    Clamp(Box<Compiled<'a>>),
    Uppercase,
    Lowercase,
    ServEval,
    Read,
    Where,
    Eval,
    Sum,
    Log,
    Get(Box<Compiled<'a>>),
    Exec,
    Pipe(Box<Compiled<'a>>),
    Markdown,
    Reference(String),
    Template(&'a Template),
    Int(i64),
}

/// A compiled word as the specification sees it.
pub enum CompiledV {
    Hello,
    Identity,
    Incr,
    Decr,
    Clamp(Box<CompiledV>),
    Uppercase,
    Lowercase,
    ServEval,
    Read,
    Where,
    Eval,
    Sum,
    Log,
    Get(Box<CompiledV>),
    Exec,
    Pipe(Box<CompiledV>),
    Markdown,
    Reference(Seq<char>),
    Template(TemplateV),
    Int(int),
}

impl<'a> Compiled<'a> {
    pub open spec fn view(&self) -> CompiledV
        decreases self,
    {
        match self {
            Compiled::Hello => CompiledV::Hello,
            Compiled::Identity => CompiledV::Identity,
            Compiled::Incr => CompiledV::Incr,
            Compiled::Decr => CompiledV::Decr,
            Compiled::Clamp(c) => CompiledV::Clamp(Box::new((**c).view())),
            Compiled::Uppercase => CompiledV::Uppercase,
            Compiled::Lowercase => CompiledV::Lowercase,
            Compiled::ServEval => CompiledV::ServEval,
            Compiled::Read => CompiledV::Read,
            Compiled::Where => CompiledV::Where,
            Compiled::Eval => CompiledV::Eval,
            Compiled::Sum => CompiledV::Sum,
            Compiled::Log => CompiledV::Log,
            Compiled::Get(c) => CompiledV::Get(Box::new((**c).view())),
            Compiled::Exec => CompiledV::Exec,
            Compiled::Pipe(c) => CompiledV::Pipe(Box::new((**c).view())),
            Compiled::Markdown => CompiledV::Markdown,
            Compiled::Reference(s) => CompiledV::Reference(s@),
            Compiled::Template(t) => CompiledV::Template(t.view()),
            Compiled::Int(i) => CompiledV::Int(*i as int),
        }
    }
}

/// What compiling a word gives: the compiled word and the position of the
/// first word it did not take; or the error for a missing argument; or
/// `Stuck` where the compiler has no rule for the word (a parenthesised
/// expression, `switch`, or a `pipe` whose argument does not compile on its
/// own), which it does not handle.
pub enum CompileOut {
    Done(CompiledV, int),
    Failed(Seq<char>),
    Stuck,
}

/// The words that compile without taking an argument, and what they give.
pub open spec fn plain_word(name: Seq<char>) -> Option<CompiledV> {
    if name == "hello"@ {
        Some(CompiledV::Hello)
    } else if name == "ident"@ {
        Some(CompiledV::Identity)
    } else if name == "incr"@ {
        Some(CompiledV::Incr)
    } else if name == "decr"@ {
        Some(CompiledV::Decr)
    } else if name == "uppercase"@ {
        Some(CompiledV::Uppercase)
    } else if name == "lowercase"@ {
        Some(CompiledV::Lowercase)
    } else if name == "eval"@ {
        Some(CompiledV::ServEval)
    } else if name == "read"@ {
        Some(CompiledV::Read)
    } else if name == "where"@ {
        Some(CompiledV::Where)
    } else if name == "%"@ {
        Some(CompiledV::Eval)
    } else if name == "sum"@ {
        Some(CompiledV::Sum)
    } else if name == "log"@ {
        Some(CompiledV::Log)
    } else if name == "exec"@ {
        Some(CompiledV::Exec)
    } else if name == "markdown"@ {
        Some(CompiledV::Markdown)
    } else {
        None
    }
}

/// Compiling the word `w` of an expression whose words are `rest`, the
/// words after `w` starting at position `from`.
pub open spec fn compile_spec(w: WordV, rest: Seq<WordV>, from: int) -> CompileOut
    decreases rest.len() - from,
{
    if from < 0 || from > rest.len() {
        CompileOut::Stuck
    } else {
        match w {
            WordV::Function(name) => if plain_word(name) is Some {
                CompileOut::Done(plain_word(name)->0, from)
            } else if name == "drop"@ || name == "!"@ {
                CompileOut::Done(CompiledV::Identity, if from < rest.len() { from + 1 } else { from })
            } else if name == "clamp"@ || name == "get"@ {
                if from >= rest.len() {
                    CompileOut::Failed(if name == "clamp"@ { "!"@ } else { "missing argument for get"@ })
                } else {
                    match compile_spec(rest[from], rest, from + 1) {
                        CompileOut::Done(c, k) => CompileOut::Done(
                            if name == "clamp"@ { CompiledV::Clamp(Box::new(c)) } else { CompiledV::Get(Box::new(c)) },
                            k,
                        ),
                        other => other,
                    }
                }
            } else if name == "pipe"@ {
                if from >= rest.len() {
                    CompileOut::Failed("missing argument for exec"@)
                } else {
                    match compile_spec(rest[from], Seq::empty(), 0) {
                        CompileOut::Done(c, _) => CompileOut::Done(CompiledV::Pipe(Box::new(c)), from + 1),
                        _ => CompileOut::Stuck,
                    }
                }
            } else if name == "switch"@ {
                CompileOut::Stuck
            } else {
                CompileOut::Done(CompiledV::Reference(name), from)
            },
            WordV::Template(t) => CompileOut::Done(CompiledV::Template(t), from),
            WordV::Literal(i) => CompileOut::Done(CompiledV::Int(i), from),
            WordV::Parantheses(_) => CompileOut::Stuck,
        }
    }
}

/// The views of a list of words.
pub open spec fn word_views(ws: Seq<Word>) -> Seq<WordV> {
    ws.map_values(|w: Word| w.view())
}

/// What compiling a word gives, as the compiler computes it.
enum Step<'a> {
    Done(Compiled<'a>, usize),
    Failed(&'static str),
    Stuck,
}

spec fn same_step<'a>(s: Step<'a>, o: CompileOut) -> bool {
    match s {
        Step::Done(c, k) => o == CompileOut::Done(c.view(), k as int),
        Step::Failed(m) => o == CompileOut::Failed(m@),
        Step::Stuck => o is Stuck,
    }
}

/// Whether the name of a word is `t`.
fn named(name: &String, t: &str) -> (r: bool)
    ensures
        r == (name@ == t@),
{
    same_text(name.as_str(), t)
}

/// The word that `name` compiles to without an argument, if it is one.
fn plain(name: &String) -> (r: Option<Compiled<'static>>)
    ensures
        match r {
            Some(c) => plain_word(name@) == Some(c.view()),
            None => plain_word(name@) is None,
        },
{
    if named(name, "hello") {
        Some(Compiled::Hello)
    } else if named(name, "ident") {
        Some(Compiled::Identity)
    } else if named(name, "incr") {
        Some(Compiled::Incr)
    } else if named(name, "decr") {
        Some(Compiled::Decr)
    } else if named(name, "uppercase") {
        Some(Compiled::Uppercase)
    } else if named(name, "lowercase") {
        Some(Compiled::Lowercase)
    } else if named(name, "eval") {
        Some(Compiled::ServEval)
    } else if named(name, "read") {
        Some(Compiled::Read)
    } else if named(name, "where") {
        Some(Compiled::Where)
    } else if named(name, "%") {
        Some(Compiled::Eval)
    } else if named(name, "sum") {
        Some(Compiled::Sum)
    } else if named(name, "log") {
        Some(Compiled::Log)
    } else if named(name, "exec") {
        Some(Compiled::Exec)
    } else if named(name, "markdown") {
        Some(Compiled::Markdown)
    } else {
        None
    }
}

/// Compiles `input`, taking arguments from `rest` at `from` on.
fn compile_from<'a>(input: &'a Word, rest: &'a [Word], from: usize) -> (r: Step<'a>)
    requires
        from <= rest@.len(),
    ensures
        same_step(r, compile_spec(input.view(), word_views(rest@), from as int)),
    decreases rest@.len() - from,
{
    let ghost rv = word_views(rest@);
    match input {
        Word::Function(name) => {
            match plain(name) {
                Some(c) => {
                    return Step::Done(c, from);
                },
                None => {},
            }
            if named(name, "drop") || named(name, "!") {
                let next = if from < rest.len() { from + 1 } else { from };
                return Step::Done(Compiled::Identity, next);
            }
            let is_clamp = named(name, "clamp");
            if is_clamp || named(name, "get") {
                if from >= rest.len() {
                    return Step::Failed(if is_clamp { "!" } else { "missing argument for get" });
                }
                proof {
                    assert(rv[from as int] == rest@[from as int].view());
                }
                return match compile_from(&rest[from], rest, from + 1) {
                    Step::Done(c, k) => Step::Done(
                        if is_clamp { Compiled::Clamp(Box::new(c)) } else { Compiled::Get(Box::new(c)) },
                        k,
                    ),
                    Step::Failed(m) => Step::Failed(m),
                    Step::Stuck => Step::Stuck,
                };
            }
            if named(name, "pipe") {
                if from >= rest.len() {
                    return Step::Failed("missing argument for exec");
                }
                let empty: &[Word] = &[];
                proof {
                    assert(word_views(empty@) =~= Seq::<WordV>::empty());
                    assert(rv[from as int] == rest@[from as int].view());
                }
                return match compile_from(&rest[from], empty, 0) {
                    Step::Done(c, _) => Step::Done(Compiled::Pipe(Box::new(c)), from + 1),
                    _ => Step::Stuck,
                };
            }
            if named(name, "switch") {
                return Step::Stuck;
            }
            Step::Done(Compiled::Reference(string_of(name.as_str())), from)
        },
        Word::Template(t) => Step::Done(Compiled::Template(t), from),
        Word::Literal(i) => Step::Done(Compiled::Int(*i), from),
        Word::Parantheses(_) => Step::Stuck,
    }
}

/// Compiles the word `input` of an expression whose next words are `rest`:
/// the compiled word and how many of the next words it took, or the error
/// for a missing argument (see `compile_spec`). Words the compiler has no
/// rule for are left out.
pub fn compile_single_word<'a>(input: &'a Word, rest: &'a [Word]) -> (r: Result<(Compiled<'a>, usize), &'static str>)
    requires
        !(compile_spec(input.view(), word_views(rest@), 0) is Stuck),
    ensures
        match r {
            Ok((c, n)) => compile_spec(input.view(), word_views(rest@), 0) == CompileOut::Done(c.view(), n as int),
            Err(m) => compile_spec(input.view(), word_views(rest@), 0) == CompileOut::Failed(m@),
        },
{
    match try_compile_single_word(input, rest) {
        Some(r) => r,
        None => {
            proof {
                assert(false);
            }
            Err("")
        },
    }
}

/// Compiles the word `input` as `compile_single_word` does, and gives
/// `None` where the compiler has no rule for it.
pub fn try_compile_single_word<'a>(input: &'a Word, rest: &'a [Word]) -> (r: Option<Result<(Compiled<'a>, usize), &'static str>>)
    ensures
        match r {
            Some(Ok((c, n))) => compile_spec(input.view(), word_views(rest@), 0) == CompileOut::Done(c.view(), n as int),
            Some(Err(m)) => compile_spec(input.view(), word_views(rest@), 0) == CompileOut::Failed(m@),
            None => compile_spec(input.view(), word_views(rest@), 0) is Stuck,
        },
{
    match compile_from(input, rest, 0) {
        Step::Done(c, k) => Some(Ok((c, k))),
        Step::Failed(m) => Some(Err(m)),
        Step::Stuck => None,
    }
}

/// Compiling the words of an expression from position `i` on, after
/// `acc` have been compiled: `None` where a word has no rule.
pub open spec fn compile_all(ws: Seq<WordV>, i: int, acc: Seq<CompiledV>) -> Option<Result<Seq<CompiledV>, Seq<char>>>
    decreases ws.len() - i,
{
    if i < 0 || i >= ws.len() {
        Some(Ok(acc))
    } else {
        match compile_spec(ws[i], ws, i + 1) {
            CompileOut::Done(c, k) => if i < k <= ws.len() {
                compile_all(ws, k, acc.push(c))
            } else {
                None
            },
            CompileOut::Failed(m) => Some(Err(m)),
            CompileOut::Stuck => None,
        }
    }
}

/// A word that compiles takes none of the words before its arguments and
/// none past the end.
proof fn lemma_compile_moves(w: WordV, rest: Seq<WordV>, from: int)
    ensures
        compile_spec(w, rest, from) matches CompileOut::Done(_, k) ==> from <= k <= rest.len(),
    decreases rest.len() - from,
{
    if 0 <= from < rest.len() {
        lemma_compile_moves(rest[from], rest, from + 1);
    }
}

/// The views of compiled words.
pub open spec fn compiled_views<'a>(cs: Seq<Compiled<'a>>) -> Seq<CompiledV> {
    cs.map_values(|c: Compiled<'a>| c.view())
}

/// Compiles every word of an expression in turn, each taking the
/// arguments it needs from the words after it (see `compile_all`); `None`
/// where a word has no rule.
pub fn compile<'a>(expression: &'a Expression) -> (r: Option<Result<Vec<Compiled<'a>>, &'static str>>)
    ensures
        match r {
            Some(Ok(v)) => compile_all(word_views(expression.0@), 0, seq![]) == Some(
                Ok::<Seq<CompiledV>, Seq<char>>(compiled_views(v@)),
            ),
            Some(Err(m)) => compile_all(word_views(expression.0@), 0, seq![]) == Some(Err::<Seq<CompiledV>, Seq<char>>(m@)),
            None => compile_all(word_views(expression.0@), 0, seq![]) is None,
        },
{
    let words = expression.0.as_slice();
    let ghost ws = word_views(words@);
    let mut out: Vec<Compiled<'a>> = Vec::new();
    let mut i: usize = 0;
    assert(compiled_views(out@) =~= Seq::<CompiledV>::empty());
    while i < words.len()
        invariant
            words@ == expression.0@,
            ws == word_views(words@),
            0 <= i <= words@.len(),
            compile_all(ws, 0, seq![]) == compile_all(ws, i as int, compiled_views(out@)),
        decreases words@.len() - i,
    {
        proof {
            assert(ws[i as int] == words@[i as int].view());
            lemma_compile_moves(ws[i as int], ws, i + 1);
        }
        match compile_from(&words[i], words, i + 1) {
            Step::Done(c, k) => {
                proof {
                    assert(compiled_views(out@.push(c)) =~= compiled_views(out@).push(c.view()));
                }
                out.push(c);
                i = k;
            },
            Step::Failed(m) => {
                return Some(Err(m));
            },
            Step::Stuck => {
                return None;
            },
        }
    }
    Some(Ok(out))
}


/// The names of the built-in words are all different.
proof fn lemma_names_differ()
    ensures
        "hello"@ != "ident"@,
        "hello"@ != "incr"@,
        "hello"@ != "decr"@,
        "hello"@ != "uppercase"@,
        "hello"@ != "lowercase"@,
        "hello"@ != "eval"@,
        "hello"@ != "read"@,
        "hello"@ != "where"@,
        "hello"@ != "%"@,
        "hello"@ != "sum"@,
        "hello"@ != "log"@,
        "hello"@ != "exec"@,
        "hello"@ != "markdown"@,
        "hello"@ != "drop"@,
        "hello"@ != "!"@,
        "hello"@ != "clamp"@,
        "hello"@ != "get"@,
        "hello"@ != "pipe"@,
        "hello"@ != "switch"@,
        "ident"@ != "incr"@,
        "ident"@ != "decr"@,
        "ident"@ != "uppercase"@,
        "ident"@ != "lowercase"@,
        "ident"@ != "eval"@,
        "ident"@ != "read"@,
        "ident"@ != "where"@,
        "ident"@ != "%"@,
        "ident"@ != "sum"@,
        "ident"@ != "log"@,
        "ident"@ != "exec"@,
        "ident"@ != "markdown"@,
        "ident"@ != "drop"@,
        "ident"@ != "!"@,
        "ident"@ != "clamp"@,
        "ident"@ != "get"@,
        "ident"@ != "pipe"@,
        "ident"@ != "switch"@,
        "incr"@ != "decr"@,
        "incr"@ != "uppercase"@,
        "incr"@ != "lowercase"@,
        "incr"@ != "eval"@,
        "incr"@ != "read"@,
        "incr"@ != "where"@,
        "incr"@ != "%"@,
        "incr"@ != "sum"@,
        "incr"@ != "log"@,
        "incr"@ != "exec"@,
        "incr"@ != "markdown"@,
        "incr"@ != "drop"@,
        "incr"@ != "!"@,
        "incr"@ != "clamp"@,
        "incr"@ != "get"@,
        "incr"@ != "pipe"@,
        "incr"@ != "switch"@,
        "decr"@ != "uppercase"@,
        "decr"@ != "lowercase"@,
        "decr"@ != "eval"@,
        "decr"@ != "read"@,
        "decr"@ != "where"@,
        "decr"@ != "%"@,
        "decr"@ != "sum"@,
        "decr"@ != "log"@,
        "decr"@ != "exec"@,
        "decr"@ != "markdown"@,
        "decr"@ != "drop"@,
        "decr"@ != "!"@,
        "decr"@ != "clamp"@,
        "decr"@ != "get"@,
        "decr"@ != "pipe"@,
        "decr"@ != "switch"@,
        "uppercase"@ != "lowercase"@,
        "uppercase"@ != "eval"@,
        "uppercase"@ != "read"@,
        "uppercase"@ != "where"@,
        "uppercase"@ != "%"@,
        "uppercase"@ != "sum"@,
        "uppercase"@ != "log"@,
        "uppercase"@ != "exec"@,
        "uppercase"@ != "markdown"@,
        "uppercase"@ != "drop"@,
        "uppercase"@ != "!"@,
        "uppercase"@ != "clamp"@,
        "uppercase"@ != "get"@,
        "uppercase"@ != "pipe"@,
        "uppercase"@ != "switch"@,
        "lowercase"@ != "eval"@,
        "lowercase"@ != "read"@,
        "lowercase"@ != "where"@,
        "lowercase"@ != "%"@,
        "lowercase"@ != "sum"@,
        "lowercase"@ != "log"@,
        "lowercase"@ != "exec"@,
        "lowercase"@ != "markdown"@,
        "lowercase"@ != "drop"@,
        "lowercase"@ != "!"@,
        "lowercase"@ != "clamp"@,
        "lowercase"@ != "get"@,
        "lowercase"@ != "pipe"@,
        "lowercase"@ != "switch"@,
        "eval"@ != "read"@,
        "eval"@ != "where"@,
        "eval"@ != "%"@,
        "eval"@ != "sum"@,
        "eval"@ != "log"@,
        "eval"@ != "exec"@,
        "eval"@ != "markdown"@,
        "eval"@ != "drop"@,
        "eval"@ != "!"@,
        "eval"@ != "clamp"@,
        "eval"@ != "get"@,
        "eval"@ != "pipe"@,
        "eval"@ != "switch"@,
        "read"@ != "where"@,
        "read"@ != "%"@,
        "read"@ != "sum"@,
        "read"@ != "log"@,
        "read"@ != "exec"@,
        "read"@ != "markdown"@,
        "read"@ != "drop"@,
        "read"@ != "!"@,
        "read"@ != "clamp"@,
        "read"@ != "get"@,
        "read"@ != "pipe"@,
        "read"@ != "switch"@,
        "where"@ != "%"@,
        "where"@ != "sum"@,
        "where"@ != "log"@,
        "where"@ != "exec"@,
        "where"@ != "markdown"@,
        "where"@ != "drop"@,
        "where"@ != "!"@,
        "where"@ != "clamp"@,
        "where"@ != "get"@,
        "where"@ != "pipe"@,
        "where"@ != "switch"@,
        "%"@ != "sum"@,
        "%"@ != "log"@,
        "%"@ != "exec"@,
        "%"@ != "markdown"@,
        "%"@ != "drop"@,
        "%"@ != "!"@,
        "%"@ != "clamp"@,
        "%"@ != "get"@,
        "%"@ != "pipe"@,
        "%"@ != "switch"@,
        "sum"@ != "log"@,
        "sum"@ != "exec"@,
        "sum"@ != "markdown"@,
        "sum"@ != "drop"@,
        "sum"@ != "!"@,
        "sum"@ != "clamp"@,
        "sum"@ != "get"@,
        "sum"@ != "pipe"@,
        "sum"@ != "switch"@,
        "log"@ != "exec"@,
        "log"@ != "markdown"@,
        "log"@ != "drop"@,
        "log"@ != "!"@,
        "log"@ != "clamp"@,
        "log"@ != "get"@,
        "log"@ != "pipe"@,
        "log"@ != "switch"@,
        "exec"@ != "markdown"@,
        "exec"@ != "drop"@,
        "exec"@ != "!"@,
        "exec"@ != "clamp"@,
        "exec"@ != "get"@,
        "exec"@ != "pipe"@,
        "exec"@ != "switch"@,
        "markdown"@ != "drop"@,
        "markdown"@ != "!"@,
        "markdown"@ != "clamp"@,
        "markdown"@ != "get"@,
        "markdown"@ != "pipe"@,
        "markdown"@ != "switch"@,
        "drop"@ != "!"@,
        "drop"@ != "clamp"@,
        "drop"@ != "get"@,
        "drop"@ != "pipe"@,
        "drop"@ != "switch"@,
        "!"@ != "clamp"@,
        "!"@ != "get"@,
        "!"@ != "pipe"@,
        "!"@ != "switch"@,
        "clamp"@ != "get"@,
        "clamp"@ != "pipe"@,
        "clamp"@ != "switch"@,
        "get"@ != "pipe"@,
        "get"@ != "switch"@,
        "pipe"@ != "switch"@,
{
    reveal_strlit("hello");
    reveal_strlit("ident");
    reveal_strlit("incr");
    reveal_strlit("decr");
    reveal_strlit("uppercase");
    reveal_strlit("lowercase");
    reveal_strlit("eval");
    reveal_strlit("read");
    reveal_strlit("where");
    reveal_strlit("%");
    reveal_strlit("sum");
    reveal_strlit("log");
    reveal_strlit("exec");
    reveal_strlit("markdown");
    reveal_strlit("drop");
    reveal_strlit("!");
    reveal_strlit("clamp");
    reveal_strlit("get");
    reveal_strlit("pipe");
    reveal_strlit("switch");
    assert("hello"@[0] != "ident"@[0]);
    assert("hello"@.len() != "incr"@.len());
    assert("hello"@.len() != "decr"@.len());
    assert("hello"@.len() != "uppercase"@.len());
    assert("hello"@.len() != "lowercase"@.len());
    assert("hello"@.len() != "eval"@.len());
    assert("hello"@.len() != "read"@.len());
    assert("hello"@[0] != "where"@[0]);
    assert("hello"@.len() != "%"@.len());
    assert("hello"@.len() != "sum"@.len());
    assert("hello"@.len() != "log"@.len());
    assert("hello"@.len() != "exec"@.len());
    assert("hello"@.len() != "markdown"@.len());
    assert("hello"@.len() != "drop"@.len());
    assert("hello"@.len() != "!"@.len());
    assert("hello"@[0] != "clamp"@[0]);
    assert("hello"@.len() != "get"@.len());
    assert("hello"@.len() != "pipe"@.len());
    assert("hello"@.len() != "switch"@.len());
    assert("ident"@.len() != "incr"@.len());
    assert("ident"@.len() != "decr"@.len());
    assert("ident"@.len() != "uppercase"@.len());
    assert("ident"@.len() != "lowercase"@.len());
    assert("ident"@.len() != "eval"@.len());
    assert("ident"@.len() != "read"@.len());
    assert("ident"@[0] != "where"@[0]);
    assert("ident"@.len() != "%"@.len());
    assert("ident"@.len() != "sum"@.len());
    assert("ident"@.len() != "log"@.len());
    assert("ident"@.len() != "exec"@.len());
    assert("ident"@.len() != "markdown"@.len());
    assert("ident"@.len() != "drop"@.len());
    assert("ident"@.len() != "!"@.len());
    assert("ident"@[0] != "clamp"@[0]);
    assert("ident"@.len() != "get"@.len());
    assert("ident"@.len() != "pipe"@.len());
    assert("ident"@.len() != "switch"@.len());
    assert("incr"@[0] != "decr"@[0]);
    assert("incr"@.len() != "uppercase"@.len());
    assert("incr"@.len() != "lowercase"@.len());
    assert("incr"@[0] != "eval"@[0]);
    assert("incr"@[0] != "read"@[0]);
    assert("incr"@.len() != "where"@.len());
    assert("incr"@.len() != "%"@.len());
    assert("incr"@.len() != "sum"@.len());
    assert("incr"@.len() != "log"@.len());
    assert("incr"@[0] != "exec"@[0]);
    assert("incr"@.len() != "markdown"@.len());
    assert("incr"@[0] != "drop"@[0]);
    assert("incr"@.len() != "!"@.len());
    assert("incr"@.len() != "clamp"@.len());
    assert("incr"@.len() != "get"@.len());
    assert("incr"@[0] != "pipe"@[0]);
    assert("incr"@.len() != "switch"@.len());
    assert("decr"@.len() != "uppercase"@.len());
    assert("decr"@.len() != "lowercase"@.len());
    assert("decr"@[0] != "eval"@[0]);
    assert("decr"@[0] != "read"@[0]);
    assert("decr"@.len() != "where"@.len());
    assert("decr"@.len() != "%"@.len());
    assert("decr"@.len() != "sum"@.len());
    assert("decr"@.len() != "log"@.len());
    assert("decr"@[0] != "exec"@[0]);
    assert("decr"@.len() != "markdown"@.len());
    assert("decr"@[1] != "drop"@[1]);
    assert("decr"@.len() != "!"@.len());
    assert("decr"@.len() != "clamp"@.len());
    assert("decr"@.len() != "get"@.len());
    assert("decr"@[0] != "pipe"@[0]);
    assert("decr"@.len() != "switch"@.len());
    assert("uppercase"@[0] != "lowercase"@[0]);
    assert("uppercase"@.len() != "eval"@.len());
    assert("uppercase"@.len() != "read"@.len());
    assert("uppercase"@.len() != "where"@.len());
    assert("uppercase"@.len() != "%"@.len());
    assert("uppercase"@.len() != "sum"@.len());
    assert("uppercase"@.len() != "log"@.len());
    assert("uppercase"@.len() != "exec"@.len());
    assert("uppercase"@.len() != "markdown"@.len());
    assert("uppercase"@.len() != "drop"@.len());
    assert("uppercase"@.len() != "!"@.len());
    assert("uppercase"@.len() != "clamp"@.len());
    assert("uppercase"@.len() != "get"@.len());
    assert("uppercase"@.len() != "pipe"@.len());
    assert("uppercase"@.len() != "switch"@.len());
    assert("lowercase"@.len() != "eval"@.len());
    assert("lowercase"@.len() != "read"@.len());
    assert("lowercase"@.len() != "where"@.len());
    assert("lowercase"@.len() != "%"@.len());
    assert("lowercase"@.len() != "sum"@.len());
    assert("lowercase"@.len() != "log"@.len());
    assert("lowercase"@.len() != "exec"@.len());
    assert("lowercase"@.len() != "markdown"@.len());
    assert("lowercase"@.len() != "drop"@.len());
    assert("lowercase"@.len() != "!"@.len());
    assert("lowercase"@.len() != "clamp"@.len());
    assert("lowercase"@.len() != "get"@.len());
    assert("lowercase"@.len() != "pipe"@.len());
    assert("lowercase"@.len() != "switch"@.len());
    assert("eval"@[0] != "read"@[0]);
    assert("eval"@.len() != "where"@.len());
    assert("eval"@.len() != "%"@.len());
    assert("eval"@.len() != "sum"@.len());
    assert("eval"@.len() != "log"@.len());
    assert("eval"@[1] != "exec"@[1]);
    assert("eval"@.len() != "markdown"@.len());
    assert("eval"@[0] != "drop"@[0]);
    assert("eval"@.len() != "!"@.len());
    assert("eval"@.len() != "clamp"@.len());
    assert("eval"@.len() != "get"@.len());
    assert("eval"@[0] != "pipe"@[0]);
    assert("eval"@.len() != "switch"@.len());
    assert("read"@.len() != "where"@.len());
    assert("read"@.len() != "%"@.len());
    assert("read"@.len() != "sum"@.len());
    assert("read"@.len() != "log"@.len());
    assert("read"@[0] != "exec"@[0]);
    assert("read"@.len() != "markdown"@.len());
    assert("read"@[0] != "drop"@[0]);
    assert("read"@.len() != "!"@.len());
    assert("read"@.len() != "clamp"@.len());
    assert("read"@.len() != "get"@.len());
    assert("read"@[0] != "pipe"@[0]);
    assert("read"@.len() != "switch"@.len());
    assert("where"@.len() != "%"@.len());
    assert("where"@.len() != "sum"@.len());
    assert("where"@.len() != "log"@.len());
    assert("where"@.len() != "exec"@.len());
    assert("where"@.len() != "markdown"@.len());
    assert("where"@.len() != "drop"@.len());
    assert("where"@.len() != "!"@.len());
    assert("where"@[0] != "clamp"@[0]);
    assert("where"@.len() != "get"@.len());
    assert("where"@.len() != "pipe"@.len());
    assert("where"@.len() != "switch"@.len());
    assert("%"@.len() != "sum"@.len());
    assert("%"@.len() != "log"@.len());
    assert("%"@.len() != "exec"@.len());
    assert("%"@.len() != "markdown"@.len());
    assert("%"@.len() != "drop"@.len());
    assert("%"@[0] != "!"@[0]);
    assert("%"@.len() != "clamp"@.len());
    assert("%"@.len() != "get"@.len());
    assert("%"@.len() != "pipe"@.len());
    assert("%"@.len() != "switch"@.len());
    assert("sum"@[0] != "log"@[0]);
    assert("sum"@.len() != "exec"@.len());
    assert("sum"@.len() != "markdown"@.len());
    assert("sum"@.len() != "drop"@.len());
    assert("sum"@.len() != "!"@.len());
    assert("sum"@.len() != "clamp"@.len());
    assert("sum"@[0] != "get"@[0]);
    assert("sum"@.len() != "pipe"@.len());
    assert("sum"@.len() != "switch"@.len());
    assert("log"@.len() != "exec"@.len());
    assert("log"@.len() != "markdown"@.len());
    assert("log"@.len() != "drop"@.len());
    assert("log"@.len() != "!"@.len());
    assert("log"@.len() != "clamp"@.len());
    assert("log"@[0] != "get"@[0]);
    assert("log"@.len() != "pipe"@.len());
    assert("log"@.len() != "switch"@.len());
    assert("exec"@.len() != "markdown"@.len());
    assert("exec"@[0] != "drop"@[0]);
    assert("exec"@.len() != "!"@.len());
    assert("exec"@.len() != "clamp"@.len());
    assert("exec"@.len() != "get"@.len());
    assert("exec"@[0] != "pipe"@[0]);
    assert("exec"@.len() != "switch"@.len());
    assert("markdown"@.len() != "drop"@.len());
    assert("markdown"@.len() != "!"@.len());
    assert("markdown"@.len() != "clamp"@.len());
    assert("markdown"@.len() != "get"@.len());
    assert("markdown"@.len() != "pipe"@.len());
    assert("markdown"@.len() != "switch"@.len());
    assert("drop"@.len() != "!"@.len());
    assert("drop"@.len() != "clamp"@.len());
    assert("drop"@.len() != "get"@.len());
    assert("drop"@[0] != "pipe"@[0]);
    assert("drop"@.len() != "switch"@.len());
    assert("!"@.len() != "clamp"@.len());
    assert("!"@.len() != "get"@.len());
    assert("!"@.len() != "pipe"@.len());
    assert("!"@.len() != "switch"@.len());
    assert("clamp"@.len() != "get"@.len());
    assert("clamp"@.len() != "pipe"@.len());
    assert("clamp"@.len() != "switch"@.len());
    assert("get"@.len() != "pipe"@.len());
    assert("get"@.len() != "switch"@.len());
    assert("pipe"@.len() != "switch"@.len());
}

/// The built-in words that take no argument, and what each compiles to:
/// `hello` the greeting, `ident` the identity, `incr` and `decr` adding and
/// taking one, `uppercase` and `lowercase` the case mappings, `eval`, `read`,
/// `where`, `%`, `sum`, `log`, `exec` and `markdown` the functions of those
/// names. None of them takes a word after it. `drop` (or `!`) compiles to
/// the identity and takes the next word, if there is one; `switch` has no
/// rule.
pub proof fn lemma_word_table(name: Seq<char>, rest: Seq<WordV>, from: int)
    requires
        0 <= from <= rest.len(),
    ensures
        name == "hello"@ ==> compile_spec(WordV::Function(name), rest, from) == CompileOut::Done(CompiledV::Hello, from),
        name == "ident"@ ==> compile_spec(WordV::Function(name), rest, from) == CompileOut::Done(CompiledV::Identity, from),
        name == "incr"@ ==> compile_spec(WordV::Function(name), rest, from) == CompileOut::Done(CompiledV::Incr, from),
        name == "decr"@ ==> compile_spec(WordV::Function(name), rest, from) == CompileOut::Done(CompiledV::Decr, from),
        name == "uppercase"@ ==> compile_spec(WordV::Function(name), rest, from) == CompileOut::Done(CompiledV::Uppercase, from),
        name == "lowercase"@ ==> compile_spec(WordV::Function(name), rest, from) == CompileOut::Done(CompiledV::Lowercase, from),
        name == "eval"@ ==> compile_spec(WordV::Function(name), rest, from) == CompileOut::Done(CompiledV::ServEval, from),
        name == "read"@ ==> compile_spec(WordV::Function(name), rest, from) == CompileOut::Done(CompiledV::Read, from),
        name == "where"@ ==> compile_spec(WordV::Function(name), rest, from) == CompileOut::Done(CompiledV::Where, from),
        name == "%"@ ==> compile_spec(WordV::Function(name), rest, from) == CompileOut::Done(CompiledV::Eval, from),
        name == "sum"@ ==> compile_spec(WordV::Function(name), rest, from) == CompileOut::Done(CompiledV::Sum, from),
        name == "log"@ ==> compile_spec(WordV::Function(name), rest, from) == CompileOut::Done(CompiledV::Log, from),
        name == "exec"@ ==> compile_spec(WordV::Function(name), rest, from) == CompileOut::Done(CompiledV::Exec, from),
        name == "markdown"@ ==> compile_spec(WordV::Function(name), rest, from) == CompileOut::Done(CompiledV::Markdown, from),
        (name == "drop"@ || name == "!"@) ==> compile_spec(WordV::Function(name), rest, from) == CompileOut::Done(
            CompiledV::Identity,
            if from < rest.len() { from + 1 } else { from },
        ),
        name == "switch"@ ==> compile_spec(WordV::Function(name), rest, from) is Stuck,
{
    lemma_names_differ();
    reveal_strlit("hello");
    reveal_strlit("ident");
    reveal_strlit("incr");
    reveal_strlit("decr");
    reveal_strlit("uppercase");
    reveal_strlit("lowercase");
    reveal_strlit("eval");
    reveal_strlit("read");
    reveal_strlit("where");
    reveal_strlit("%");
    reveal_strlit("sum");
    reveal_strlit("log");
    reveal_strlit("exec");
    reveal_strlit("markdown");
    reveal_strlit("drop");
    reveal_strlit("!");
    reveal_strlit("clamp");
    reveal_strlit("get");
    reveal_strlit("pipe");
    reveal_strlit("switch");
}

/// Any other name compiles to a reference to itself, taking no word after
/// it; an integer compiles to itself and a template to itself.
pub proof fn lemma_other_words(name: Seq<char>, i: int, t: TemplateV, rest: Seq<WordV>, from: int)
    requires
        0 <= from <= rest.len(),
        !(name == "hello"@ || name == "ident"@ || name == "incr"@ || name == "decr"@ || name == "uppercase"@ || name == "lowercase"@ || name == "eval"@ || name == "read"@ || name == "where"@ || name == "%"@ || name == "sum"@ || name == "log"@ || name == "exec"@ || name == "markdown"@ || name == "drop"@ || name == "!"@ || name == "clamp"@ || name == "get"@ || name == "pipe"@ || name == "switch"@),
    ensures
        compile_spec(WordV::Function(name), rest, from) == CompileOut::Done(CompiledV::Reference(name), from),
        compile_spec(WordV::Literal(i), rest, from) == CompileOut::Done(CompiledV::Int(i), from),
        compile_spec(WordV::Template(t), rest, from) == CompileOut::Done(CompiledV::Template(t), from),
{
    lemma_names_differ();
    reveal_strlit("hello");
    reveal_strlit("ident");
    reveal_strlit("incr");
    reveal_strlit("decr");
    reveal_strlit("uppercase");
    reveal_strlit("lowercase");
    reveal_strlit("eval");
    reveal_strlit("read");
    reveal_strlit("where");
    reveal_strlit("%");
    reveal_strlit("sum");
    reveal_strlit("log");
    reveal_strlit("exec");
    reveal_strlit("markdown");
    reveal_strlit("drop");
    reveal_strlit("!");
    reveal_strlit("clamp");
    reveal_strlit("get");
    reveal_strlit("pipe");
    reveal_strlit("switch");
}

/// `clamp` and `get` compile the next word (which may take further words in
/// turn) and wrap it; `pipe` compiles the next word on its own and wraps
/// it, taking that one word. With no next word each fails with its own
/// message.
pub proof fn lemma_words_with_argument(rest: Seq<WordV>, from: int)
    requires
        0 <= from <= rest.len(),
    ensures
        from == rest.len() ==> compile_spec(WordV::Function("clamp"@), rest, from) == CompileOut::Failed("!"@)
            && compile_spec(WordV::Function("get"@), rest, from) == CompileOut::Failed("missing argument for get"@),
        from < rest.len() ==> match compile_spec(rest[from], rest, from + 1) {
            CompileOut::Done(c, k) => compile_spec(WordV::Function("clamp"@), rest, from) == CompileOut::Done(
                CompiledV::Clamp(Box::new(c)),
                k,
            ) && compile_spec(WordV::Function("get"@), rest, from) == CompileOut::Done(CompiledV::Get(Box::new(c)), k),
            other => compile_spec(WordV::Function("clamp"@), rest, from) == other
                && compile_spec(WordV::Function("get"@), rest, from) == other,
        },
        from == rest.len() ==> compile_spec(WordV::Function("pipe"@), rest, from) == CompileOut::Failed(
            "missing argument for exec"@,
        ),
        from < rest.len() ==> match compile_spec(rest[from], Seq::empty(), 0) {
            CompileOut::Done(c, _) => compile_spec(WordV::Function("pipe"@), rest, from) == CompileOut::Done(
                CompiledV::Pipe(Box::new(c)),
                from + 1,
            ),
            _ => compile_spec(WordV::Function("pipe"@), rest, from) is Stuck,
        },
{
    lemma_names_differ();
    reveal_strlit("hello");
    reveal_strlit("ident");
    reveal_strlit("incr");
    reveal_strlit("decr");
    reveal_strlit("uppercase");
    reveal_strlit("lowercase");
    reveal_strlit("eval");
    reveal_strlit("read");
    reveal_strlit("where");
    reveal_strlit("%");
    reveal_strlit("sum");
    reveal_strlit("log");
    reveal_strlit("exec");
    reveal_strlit("markdown");
    reveal_strlit("drop");
    reveal_strlit("!");
    reveal_strlit("clamp");
    reveal_strlit("get");
    reveal_strlit("pipe");
    reveal_strlit("switch");
}

/// What the word at `i` compiles to when it takes no word after it.
pub open spec fn alone(ws: Seq<WordV>, i: int) -> CompiledV {
    match compile_spec(ws[i], ws, i + 1) {
        CompileOut::Done(c, _) => c,
        _ => CompiledV::Identity,
    }
}

/// An expression whose words each compile without taking the word after
/// them compiles to one word for each of its words, in order.
pub proof fn lemma_compile_word_by_word(ws: Seq<WordV>)
    requires
        forall|i: int| 0 <= i < ws.len() ==> (#[trigger] compile_spec(ws[i], ws, i + 1) matches CompileOut::Done(_, k)
            && k == i + 1),
    ensures
        compile_all(ws, 0, seq![]) == Some(Ok::<Seq<CompiledV>, Seq<char>>(Seq::new(ws.len(), |i: int| alone(ws, i)))),
{
    lemma_compile_from(ws, 0, seq![]);
    assert(Seq::<CompiledV>::empty() + Seq::new((ws.len() - 0) as nat, |j: int| alone(ws, 0 + j)) =~= Seq::new(
        ws.len(),
        |i: int| alone(ws, i),
    ));
}

proof fn lemma_compile_from(ws: Seq<WordV>, i: int, acc: Seq<CompiledV>)
    requires
        0 <= i <= ws.len(),
        forall|j: int| 0 <= j < ws.len() ==> (#[trigger] compile_spec(ws[j], ws, j + 1) matches CompileOut::Done(_, k)
            && k == j + 1),
    ensures
        compile_all(ws, i, acc) == Some(Ok::<Seq<CompiledV>, Seq<char>>(acc + Seq::new((ws.len() - i) as nat, |j: int| alone(ws, i + j)))),
    decreases ws.len() - i,
{
    if i == ws.len() {
        assert(acc + Seq::new((ws.len() - i) as nat, |j: int| alone(ws, i + j)) =~= acc);
    } else {
        assert(compile_spec(ws[i], ws, i + 1) matches CompileOut::Done(_, k) && k == i + 1);
        lemma_compile_from(ws, i + 1, acc.push(alone(ws, i)));
        assert(acc.push(alone(ws, i)) + Seq::new((ws.len() - (i + 1)) as nat, |j: int| alone(ws, i + 1 + j))
            =~= acc + Seq::new((ws.len() - i) as nat, |j: int| alone(ws, i + j)));
    }
}

} // verus!
