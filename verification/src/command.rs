//! Commands of a route: a name and an argument, run one after another on the
//! state of a request.
//!
//! Running a command decides what happens to the state. Where a command
//! needs the outside world (a process, a file, the database, the route
//! table), running it hands back an `Effect` that says what to do, with the
//! argument already worked out; the caller performs it.

use vstd::prelude::*;
use crate::body::Body;
use crate::request_state::{RequestState, StateV};
use crate::substitution::{substitute_vars, substituted, opt_views_one};
use crate::text::{decimal, decimal_string, join_with, push_char, push_str, split_on, split_text, string_of,
    views, same_text};

verus! {

/// What a command does.
#[derive(Clone, Copy, Debug, PartialEq, Eq, Structural)]
pub enum CommandFunction {
    Echo,
    Exec,
    SetVariable,
    Read,
    Header,
    Filetype,
    Shell,
    Debug,
    Jumpto,
    ParseQuery,
    Sql,
    ParseBody,
}

/// The function of the command called `name`, if there is one.
pub open spec fn command_for(name: Seq<char>) -> Option<CommandFunction> {
    if name == "echo"@ {
        Some(CommandFunction::Echo)
    } else if name == "exec"@ {
        Some(CommandFunction::Exec)
    } else if name == "set"@ {
        Some(CommandFunction::SetVariable)
    } else if name == "read"@ || name == "file"@ {
        Some(CommandFunction::Read)
    } else if name == "header"@ {
        Some(CommandFunction::Header)
    } else if name == "filetype"@ || name == "ft"@ || name == "type"@ {
        Some(CommandFunction::Filetype)
    } else if name == "shell"@ || name == "sh"@ {
        Some(CommandFunction::Shell)
    } else if name == "debug"@ {
        Some(CommandFunction::Debug)
    } else if name == "jumpto"@ || name == "jump"@ || name == "use"@ {
        Some(CommandFunction::Jumpto)
    } else if name == "parse_query"@ {
        Some(CommandFunction::ParseQuery)
    } else if name == "sql"@ {
        Some(CommandFunction::Sql)
    } else if name == "parse_body"@ {
        Some(CommandFunction::ParseBody)
    } else {
        None
    }
}

/// The function of the command called `name`, or `None` where no command
/// has that name.
pub fn lookup_command(name: &str) -> (r: Option<CommandFunction>)
    ensures
        r == command_for(name@),
{
    if same_text(name, "echo") {
        Some(CommandFunction::Echo)
    } else if same_text(name, "exec") {
        Some(CommandFunction::Exec)
    } else if same_text(name, "set") {
        Some(CommandFunction::SetVariable)
    } else if same_text(name, "read") || same_text(name, "file") {
        Some(CommandFunction::Read)
    } else if same_text(name, "header") {
        Some(CommandFunction::Header)
    } else if same_text(name, "filetype") || same_text(name, "ft") || same_text(name, "type") {
        Some(CommandFunction::Filetype)
    } else if same_text(name, "shell") || same_text(name, "sh") {
        Some(CommandFunction::Shell)
    } else if same_text(name, "debug") {
        Some(CommandFunction::Debug)
    } else if same_text(name, "jumpto") || same_text(name, "jump") || same_text(name, "use") {
        Some(CommandFunction::Jumpto)
    } else if same_text(name, "parse_query") {
        Some(CommandFunction::ParseQuery)
    } else if same_text(name, "sql") {
        Some(CommandFunction::Sql)
    } else if same_text(name, "parse_body") {
        Some(CommandFunction::ParseBody)
    } else {
        None
    }
}

/// The function of the command called `name`, which must be a command.
pub fn get_command_function(name: &str) -> (r: CommandFunction)
    requires
        command_for(name@) is Some,
    ensures
        command_for(name@) == Some(r),
{
    match lookup_command(name) {
        Some(f) => f,
        None => CommandFunction::Echo,
    }
}

/// What the caller must do after a command ran.
#[derive(Debug)]
pub enum Effect {
    /// Nothing more.
    Done,
    /// Run `program` with `args`, feed it the body, and make its output the
    /// body.
    Exec { program: String, args: Vec<String> },
    /// Append the contents of each file to the body, in order; a file that
    /// cannot be read makes the body a 404 error.
    Read(Vec<String>),
    /// Feed `script` to `/bin/sh` and append its output to the body.
    Shell(String),
    /// Print the whole state.
    Debug,
    /// Look up the route of that name; it must exist.
    Jump(String),
    /// Run the query on the database, binding the `sql.params` variables,
    /// and append the rows to the body as JSON.
    Sql(String),
    /// Parse the body as JSON into variables under `body`.
    ParseBody,
}

/// The pieces of an argument between spaces.
pub open spec fn words(arg: Seq<char>) -> Seq<Seq<char>> {
    split_on(arg, ' ')
}

/// Whether `function` can take `arg`: `set` and `header` need a key and a
/// value separated by a space; `exec`, `jumpto` and `sql` need an argument.
pub open spec fn takes(function: CommandFunction, arg: Option<Seq<char>>) -> bool {
    match function {
        CommandFunction::SetVariable | CommandFunction::Header => arg matches Some(a) && words(a).len() >= 2,
        CommandFunction::Exec | CommandFunction::Jumpto | CommandFunction::Sql => arg is Some,
        _ => true,
    }
}

/// The effect of running `function` with `arg` on a state `s`, and the
/// state after it.
pub open spec fn outcome(function: CommandFunction, arg: Option<Seq<char>>, s: StateV, after: StateV, effect: Effect)
    -> bool {
    let text = match arg {
        Some(a) => a,
        None => Seq::empty(),
    };
    match function {
        CommandFunction::Echo => {
            &&& after.body matches Body::Txt(b) && b@ == text
            &&& after.variables == s.variables
            &&& after.headers == s.headers
            &&& after.mime == s.mime
            &&& effect is Done
        },
        CommandFunction::SetVariable => {
            &&& after.variables == s.variables.insert(words(text)[0], words(text)[1])
            &&& after.headers == s.headers
            &&& after.body == s.body
            &&& after.mime == s.mime
            &&& effect is Done
        },
        CommandFunction::Header => {
            &&& after.headers == s.headers.insert(words(text)[0], words(text)[1])
            &&& after.variables == s.variables
            &&& after.body == s.body
            &&& after.mime == s.mime
            &&& effect is Done
        },
        CommandFunction::Filetype => {
            &&& after.mime == arg
            &&& after.variables == s.variables
            &&& after.headers == s.headers
            &&& after.body == s.body
            &&& effect is Done
        },
        _ => {
            &&& after == s
            &&& match function {
                CommandFunction::Exec => effect matches Effect::Exec { program, args } && program@ == words(text)[0]
                    && views(args@) == words(text).drop_first(),
                CommandFunction::Read => match arg {
                    Some(a) => effect matches Effect::Read(paths) && views(paths@) == words(a),
                    None => effect is Done,
                },
                CommandFunction::Shell => effect matches Effect::Shell(t) && t@ == text,
                CommandFunction::Debug => effect is Debug,
                CommandFunction::Jumpto => effect matches Effect::Jump(t) && t@ == text,
                CommandFunction::Sql => effect matches Effect::Sql(t) && t@ == text,
                CommandFunction::ParseBody => effect is ParseBody,
                _ => effect is Done,
            }
        },
    }
}

impl CommandFunction {
    /// Runs the function with `arg` on `state`.
    pub fn call(&self, state: &mut RequestState, arg: Option<&str>) -> (effect: Effect)
        requires
            old(state).wf(),
            takes(*self, opt_text(arg)),
        ensures
            final(state).wf(),
            outcome(*self, opt_text(arg), old(state)@, final(state)@, effect),
    {
        match self {
            CommandFunction::Echo => {
                let text = match arg {
                    Some(a) => a,
                    None => "",
                };
                proof {
                    reveal_strlit("");
                    assert(text@ == match opt_text(arg) {
                        Some(a) => a,
                        None => Seq::<char>::empty(),
                    });
                }
                state.set_body(Body::from_str(text));
                Effect::Done
            },
            CommandFunction::SetVariable => {
                let a = match arg {
                    Some(a) => a,
                    None => "",
                };
                let parts = split_text(a, ' ');
                state.set_variable(parts[0].as_str(), parts[1].as_str());
                Effect::Done
            },
            CommandFunction::Header => {
                let a = match arg {
                    Some(a) => a,
                    None => "",
                };
                let parts = split_text(a, ' ');
                state.set_header(parts[0].as_str(), parts[1].as_str());
                Effect::Done
            },
            CommandFunction::Filetype => {
                let m = match arg {
                    Some(a) => Some(string_of(a)),
                    None => None,
                };
                state.set_mime(m);
                Effect::Done
            },
            CommandFunction::Exec => {
                let a = match arg {
                    Some(a) => a,
                    None => "",
                };
                let parts = split_text(a, ' ');
                proof {
                    crate::text::lemma_split_nonempty(a@, ' ');
                }
                let mut args: Vec<String> = Vec::new();
                let mut i: usize = 1;
                while i < parts.len()
                    invariant
                        views(parts@) == words(a@),
                        1 <= i <= parts@.len(),
                        views(args@) == views(parts@).subrange(1, i as int),
                    decreases parts@.len() - i,
                {
                    let piece = parts[i].clone();
                    proof {
                        assert(piece@ == views(parts@)[i as int]);
                        assert(views(args@.push(piece)) =~= views(args@).push(piece@));
                    }
                    args.push(piece);
                    i += 1;
                    proof {
                        assert(views(args@) =~= views(parts@).subrange(1, i as int));
                    }
                }
                proof {
                    assert(views(parts@).subrange(1, parts@.len() as int) =~= views(parts@).drop_first());
                }
                Effect::Exec { program: parts[0].clone(), args }
            },
            CommandFunction::Read => match arg {
                Some(paths) => Effect::Read(split_text(paths, ' ')),
                None => Effect::Done,
            },
            CommandFunction::Shell => {
                proof {
                    reveal_strlit("");
                }
                match arg {
                    Some(a) => Effect::Shell(string_of(a)),
                    None => Effect::Shell(String::new()),
                }
            },
            CommandFunction::Debug => Effect::Debug,
            CommandFunction::Jumpto => {
                proof {
                    reveal_strlit("");
                }
                match arg {
                    Some(a) => Effect::Jump(string_of(a)),
                    None => Effect::Jump(String::new()),
                }
            },
            CommandFunction::ParseQuery => Effect::Done,
            CommandFunction::Sql => {
                proof {
                    reveal_strlit("");
                }
                match arg {
                    Some(a) => Effect::Sql(string_of(a)),
                    None => Effect::Sql(String::new()),
                }
            },
            CommandFunction::ParseBody => Effect::ParseBody,
        }
    }
}

/// The view of an optional string slice.
pub open spec fn opt_text(o: Option<&str>) -> Option<Seq<char>> {
    match o {
        Some(s) => Some(s@),
        None => None,
    }
}

/// A command: its name, its argument as written, and what it does.
#[derive(Clone, Debug)]
pub struct Command {
    pub name: String,
    pub arg: Option<String>,
    pub function: CommandFunction,
}

impl Command {
    /// The argument with its variables replaced from `vars`: `None` where
    /// there is no argument (or the variable syntax does not compile).
    pub open spec fn arg_in(&self, vars: Map<Seq<char>, Seq<char>>) -> Option<Seq<char>> {
        match self.arg {
            Some(a) => substituted(a@, vars),
            None => None,
        }
    }

    /// Whether the command can run on a state with these variables.
    pub open spec fn runnable(&self, vars: Map<Seq<char>, Seq<char>>) -> bool {
        takes(self.function, self.arg_in(vars))
    }

    /// The command called `name` with argument `arg`; `name` must be a
    /// command.
    pub fn new(name: &str, arg: Option<&str>) -> (r: Self)
        requires
            command_for(name@) is Some,
        ensures
            r.name@ == name@,
            opt_views_one(r.arg) == opt_text(arg),
            command_for(name@) == Some(r.function),
    {
        Command {
            name: string_of(name),
            arg: match arg {
                Some(a) => Some(string_of(a)),
                None => None,
            },
            function: get_command_function(name),
        }
    }

    /// The argument with its variables replaced from `state`.
    pub fn substitute_variables(&self, state: &RequestState) -> (r: Option<String>)
        ensures
            opt_views_one(r) == self.arg_in(state@.variables),
            r is Some <==> self.arg is Some,
    {
        match &self.arg {
            Some(a) => substitute_vars(a.as_str(), state),
            None => None,
        }
    }

    /// The command as it is written: its name, a space, and its argument
    /// (nothing after the space where there is none).
    pub fn to_string(&self) -> (r: String)
        ensures
            r@ == self.name@ + seq![' '] + match self.arg {
                Some(a) => a@,
                None => Seq::empty(),
            },
    {
        let mut out = self.name.clone();
        push_char(&mut out, ' ');
        match &self.arg {
            Some(a) => push_str(&mut out, a.as_str()),
            None => {},
        }
        out
    }

    /// Runs the command on `state`, its argument's variables replaced first.
    pub fn run(&self, state: &mut RequestState) -> (effect: Effect)
        requires
            old(state).wf(),
            self.runnable(old(state)@.variables),
        ensures
            final(state).wf(),
            outcome(self.function, self.arg_in(old(state)@.variables), old(state)@, final(state)@, effect),
    {
        let arg = self.substitute_variables(state);
        match arg {
            Some(a) => self.function.call(state, Some(a.as_str())),
            None => self.function.call(state, None),
        }
    }

    /// Runs the command where it can run on `state`; otherwise leaves the
    /// state as it is and gives `None`.
    pub fn try_run(&self, state: &mut RequestState) -> (r: Option<Effect>)
        requires
            old(state).wf(),
        ensures
            final(state).wf(),
            r is Some <==> self.runnable(old(state)@.variables),
            match r {
                Some(effect) => outcome(self.function, self.arg_in(old(state)@.variables), old(state)@,
                    final(state)@, effect),
                None => final(state)@ == old(state)@,
            },
    {
        let arg = self.substitute_variables(state);
        let ok = match self.function {
            CommandFunction::SetVariable | CommandFunction::Header => match &arg {
                Some(a) => {
                    let parts = split_text(a.as_str(), ' ');
                    parts.len() >= 2
                },
                None => false,
            },
            CommandFunction::Exec | CommandFunction::Jumpto | CommandFunction::Sql => arg.is_some(),
            _ => true,
        };
        if !ok {
            return None;
        }
        match arg {
            Some(a) => Some(self.function.call(state, Some(a.as_str()))),
            None => Some(self.function.call(state, None)),
        }
    }
}


/// One member of a JSON object: `"key": "value"`.
pub open spec fn json_member(key: Seq<char>, value: Seq<char>) -> Seq<char> {
    seq!['"'] + key + "\": \""@ + value + seq!['"']
}

/// The members of an object, written out.
pub open spec fn json_members(object: Seq<(String, String)>) -> Seq<Seq<char>> {
    object.map_values(|p: (String, String)| json_member(p.0@, p.1@))
}

/// Writes `object` as a JSON object of strings: `{"k": "v","k2": "v2"}`.
/// Keys and values are written as they are, without escapes.
pub fn json_encode_object(object: Vec<(String, String)>) -> (r: String)
    ensures
        r@ == seq!['{'] + join_with(json_members(object@), seq![',']) + seq!['}'],
{
    let mut members: Vec<String> = Vec::new();
    let mut i: usize = 0;
    while i < object.len()
        invariant
            0 <= i <= object@.len(),
            views(members@) == json_members(object@).take(i as int),
        decreases object@.len() - i,
    {
        let mut m = String::new();
        push_char(&mut m, '"');
        push_str(&mut m, object[i].0.as_str());
        push_str(&mut m, "\": \"");
        push_str(&mut m, object[i].1.as_str());
        push_char(&mut m, '"');
        proof {
            assert(m@ == json_members(object@)[i as int]);
            assert(views(members@.push(m)) =~= views(members@).push(m@));
        }
        members.push(m);
        i += 1;
        proof {
            assert(views(members@) =~= json_members(object@).take(i as int));
        }
    }
    proof {
        assert(json_members(object@).take(object@.len() as int) =~= json_members(object@));
    }
    let body = crate::text::join_text(&members, ",");
    let mut out = String::new();
    push_char(&mut out, '{');
    push_str(&mut out, body.as_str());
    push_char(&mut out, '}');
    proof {
        reveal_strlit(",");
        assert(","@ =~= seq![',']);
        assert(out@ =~= seq!['{'] + join_with(json_members(object@), seq![',']) + seq!['}']);
    }
    out
}

/// Writes `array` as a JSON array of its items as they are, one to a line:
/// `[a,\nb]`.
pub fn json_encode_array(array: Vec<String>) -> (r: String)
    ensures
        r@ == seq!['['] + join_with(views(array@), seq![',', '\n']) + seq![']'],
{
    let body = crate::text::join_text(&array, ",\n");
    let mut out = String::new();
    push_char(&mut out, '[');
    push_str(&mut out, body.as_str());
    push_char(&mut out, ']');
    proof {
        reveal_strlit(",\n");
        assert(",\n"@ =~= seq![',', '\n']);
        assert(out@ =~= seq!['['] + join_with(views(array@), seq![',', '\n']) + seq![']']);
    }
    out
}

/// The name of the `i`th query parameter: `sql.params.i`.
pub open spec fn param_name(i: nat) -> Seq<char> {
    "sql.params."@ + decimal(i)
}

/// The query parameters from the `i`th on: the values of `sql.params.i`,
/// `sql.params.i+1`, and so on, up to the first that is not set.
pub open spec fn params_from(vars: Map<Seq<char>, Seq<char>>, i: nat) -> Seq<Seq<char>>
    decreases u32::MAX - i,
{
    if i >= u32::MAX || !vars.contains_key(param_name(i)) {
        Seq::empty()
    } else {
        seq![vars[param_name(i)]] + params_from(vars, i + 1)
    }
}

/// The values of the query parameters `sql.params.1`, `sql.params.2`, ...
/// up to the first that is not set.
pub fn sql_params(state: &RequestState) -> (r: Vec<String>)
    ensures
        views(r@) == params_from(state@.variables, 1),
{
    let ghost vars = state@.variables;
    let mut out: Vec<String> = Vec::new();
    let mut index: u32 = 1;
    while index < u32::MAX
        invariant
            vars == state@.variables,
            1 <= index,
            views(out@) + params_from(vars, index as nat) == params_from(vars, 1),
        ensures
            views(out@) == params_from(vars, 1),
        decreases u32::MAX - index,
    {
        let mut name = string_of("sql.params.");
        let n = decimal_string(index as u64);
        push_str(&mut name, n.as_str());
        match state.get_variable(name.as_str()) {
            Some(v) => {
                let value = string_of(v);
                proof {
                    assert(views(out@.push(value)) =~= views(out@).push(value@));
                    assert(views(out@).push(value@) + params_from(vars, index as nat + 1) =~= views(out@)
                        + params_from(vars, index as nat));
                }
                out.push(value);
                index += 1;
            },
            None => {
                proof {
                    assert(views(out@) + params_from(vars, index as nat) =~= views(out@));
                }
                break;
            },
        }
    }
    proof {
        if index >= u32::MAX {
            assert(views(out@) + params_from(vars, index as nat) =~= views(out@));
        }
    }
    out
}

} // verus!
