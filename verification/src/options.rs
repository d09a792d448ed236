//! The command line, and running again with elevated rights.
use vstd::prelude::*;

use crate::ports::DEFAULT_PORT;
use crate::text::{
    chars_of, contains_text, has_text, occurs_at, parse_unsigned, same_text, unsigned_value,
};

verus! {

/// What the command line asks for.
#[derive(Debug, PartialEq, Eq)]
pub struct Options {
    /// Run as a worker rather than as the controller.
    pub is_worker: bool,
    /// Do not ask for elevated rights.
    pub no_elevate: bool,
    /// The port to start from.
    pub port: u16,
    /// The machine that the workers run on.
    pub target_ip: String,
}

/// The arguments as texts.
pub open spec fn arg_texts(args: Seq<String>) -> Seq<Seq<char>> {
    args.map_values(|s: String| s@)
}

/// Where `flag` first stands among the arguments; their number where it does not.
pub open spec fn flag_at(args: Seq<Seq<char>>, flag: Seq<char>) -> int
    decreases args.len(),
{
    if args.len() == 0 || args[0] == flag {
        0
    } else {
        1 + flag_at(args.drop_first(), flag)
    }
}

/// The argument after the first `flag`.
pub open spec fn value_after(args: Seq<Seq<char>>, flag: Seq<char>) -> Option<Seq<char>> {
    let n = flag_at(args, flag);
    if 0 <= n && n + 1 < args.len() {
        Some(args[n + 1])
    } else {
        None
    }
}

/// The port that the arguments ask for; the default one where they name none or no port.
pub open spec fn port_option(args: Seq<Seq<char>>) -> int {
    match value_after(args, "--port"@) {
        Some(value) => match unsigned_value(value, 0xFFFF) {
            Some(port) => port as int,
            None => DEFAULT_PORT as int,
        },
        None => DEFAULT_PORT as int,
    }
}

proof fn lemma_flag_at(args: Seq<Seq<char>>, flag: Seq<char>)
    ensures
        0 <= flag_at(args, flag) <= args.len(),
        flag_at(args, flag) < args.len() ==> args[flag_at(args, flag)] == flag,
        forall|i: int| 0 <= i < flag_at(args, flag) ==> #[trigger] args[i] != flag,
        flag_at(args, flag) < args.len() <==> args.contains(flag),
    decreases args.len(),
{
    if args.len() > 0 && args[0] != flag {
        let rest = args.drop_first();
        lemma_flag_at(rest, flag);
        assert forall|i: int| 0 <= i < flag_at(args, flag) implies #[trigger] args[i] != flag by {
            if i > 0 {
                assert(args[i] == rest[i - 1]);
            }
        }
        if args.contains(flag) {
            let k = choose|k: int| 0 <= k < args.len() && args[k] == flag;
            assert(rest[k - 1] == flag);
        }
    }
}

/// Finds the first `flag` among the arguments.
fn find_flag(args: &Vec<String>, flag: &str) -> (at: usize)
    ensures
        at == flag_at(arg_texts(args@), flag@),
        at <= args@.len(),
        at < args@.len() <==> arg_texts(args@).contains(flag@),
{
    let mut at: usize = 0;
    while at < args.len() && !same_text(args[at].as_str(), flag)
        invariant
            at <= args@.len(),
            forall|i: int| 0 <= i < at ==> #[trigger] arg_texts(args@)[i] != flag@,
        decreases args@.len() - at,
    {
        assert(arg_texts(args@)[at as int] == args@[at as int]@);
        at = at + 1;
    }
    proof {
        lemma_flag_at(arg_texts(args@), flag@);
        if at < args@.len() {
            assert(arg_texts(args@)[at as int] == flag@);
        }
    }
    at
}

/// The argument after the first `flag`.
fn find_value(args: &Vec<String>, flag: &str) -> (value: Option<String>)
    ensures
        match value {
            Some(v) => value_after(arg_texts(args@), flag@) == Some(v@),
            None => value_after(arg_texts(args@), flag@) is None,
        },
{
    let at: usize = find_flag(args, flag);
    if at < args.len() && at + 1 < args.len() {
        assert(arg_texts(args@)[at + 1] == args@[at + 1]@);
        Some(args[at + 1].clone())
    } else {
        None
    }
}

/// Reads the command line.
pub fn parse_args(args: &Vec<String>) -> (options: Options)
    ensures
        options.is_worker == arg_texts(args@).contains("--worker"@),
        options.no_elevate == arg_texts(args@).contains("--no-elevate"@),
        options.port == port_option(arg_texts(args@)),
        options.target_ip@ == (match value_after(arg_texts(args@), "--target"@) {
            Some(value) => value,
            None => "127.0.0.1"@,
        }),
{
    let is_worker: bool = find_flag(args, "--worker") < args.len();
    let no_elevate: bool = find_flag(args, "--no-elevate") < args.len();
    let port: u16 = match find_value(args, "--port") {
        Some(value) => match parse_unsigned(chars_of(value.as_str()).as_slice(), 0xFFFF) {
            Some(port) => port as u16,
            None => DEFAULT_PORT,
        },
        None => DEFAULT_PORT,
    };
    let target_ip: String = match find_value(args, "--target") {
        Some(value) => value,
        None => "127.0.0.1".to_owned(),
    };
    Options { is_worker, no_elevate, port, target_ip }
}

impl Options {
    /// Tells whether elevated rights are needed: a worker needs them unless told otherwise.
    pub fn needs_elevation(&self) -> (needed: bool)
        ensures
            needed == (self.is_worker && !self.no_elevate),
    {
        self.is_worker && !self.no_elevate
    }
}

/// The scheduled tasks that start a worker with elevated rights: that of the machine, then that
/// of the user.
pub open spec fn task_names(username: Seq<char>) -> Seq<Seq<char>> {
    seq!["DualWindowWorker_Global"@, "DualWindowWorker_"@ + username]
}

/// The scheduled tasks that start a worker with elevated rights, in the order of trying.
pub fn elevation_tasks(username: &str) -> (tasks: Vec<String>)
    ensures
        arg_texts(tasks@) == task_names(username@),
{
    let mut tasks: Vec<String> = Vec::new();
    tasks.push("DualWindowWorker_Global".to_owned());
    let mut own: String = String::new();
    own.append("DualWindowWorker_");
    own.append(username);
    assert(own@ =~= "DualWindowWorker_"@ + username@);
    tasks.push(own);
    assert(arg_texts(tasks@) =~= task_names(username@));
    tasks
}

/// Texts with a space between any two.
pub open spec fn joined(list: Seq<Seq<char>>) -> Seq<char>
    decreases list.len(),
{
    if list.len() == 0 {
        Seq::empty()
    } else if list.len() == 1 {
        list[0]
    } else {
        joined(list.drop_last()) + " "@ + list.last()
    }
}

/// The arguments without the program's own name.
pub open spec fn own_args(args: Seq<Seq<char>>) -> Seq<Seq<char>> {
    if args.len() > 0 {
        args.drop_first()
    } else {
        args
    }
}

/// The command line of the elevated instance: the arguments of this one, its own name aside,
/// and the request not to elevate again where they do not hold it.
pub open spec fn elevated_line(args: Seq<Seq<char>>) -> Seq<char> {
    let line = joined(own_args(args));
    if contains_text(line, "--no-elevate"@) {
        line
    } else if line.len() > 0 {
        line + " "@ + "--no-elevate"@
    } else {
        "--no-elevate"@
    }
}

/// The command line of the elevated instance.
pub fn elevation_params(args: &Vec<String>) -> (params: String)
    ensures
        params@ == elevated_line(arg_texts(args@)),
{
    let ghost all = arg_texts(args@);
    let ghost rest = own_args(all);
    let mut params: String = String::new();
    let mut i: usize = 1;
    assert(rest.take(0) =~= Seq::<Seq<char>>::empty());
    while i < args.len()
        invariant
            1 <= i,
            args@.len() > 0 ==> i <= args@.len(),
            args@.len() == 0 ==> i == 1,
            all == arg_texts(args@),
            rest == own_args(all),
            params@ == joined(rest.take(i - 1)),
        decreases args@.len() - i,
    {
        let ghost before = params@;
        if i > 1 {
            params.append(" ");
        }
        params.append(args[i].as_str());
        proof {
            let upto = rest.take(i as int);
            assert(upto.drop_last() =~= rest.take(i - 1));
            assert(upto.last() == args@[i as int]@);
            if i > 1 {
                assert(params@ =~= before + " "@ + upto.last());
            } else {
                assert(params@ =~= upto[0]);
            }
        }
        i = i + 1;
    }
    assert(rest.take(i - 1) =~= rest);
    let ghost line = params@;
    if !has_text(params.as_str(), "--no-elevate") {
        if !params.as_str().is_empty() {
            params.append(" ");
        }
        params.append("--no-elevate");
        assert(line.len() == 0 ==> params@ =~= "--no-elevate"@);
    }
    params
}

/// Tells from the answer of the shell whether it started the program: an answer of up to 32 is
/// an error. The answer is an unsigned number in a signed word.
pub fn launch_succeeded(answer: isize) -> (started: bool)
    ensures
        started == (answer < 0 || answer > 32),
{
    answer < 0 || answer > 32
}

/// The request not to elevate again stands in the command line of the elevated instance.
pub proof fn elevated_line_holds_request(args: Seq<Seq<char>>)
    ensures
        contains_text(elevated_line(args), "--no-elevate"@),
{
    let request = "--no-elevate"@;
    let full = elevated_line(args);
    if !contains_text(joined(own_args(args)), request) {
        let at = full.len() - request.len();
        assert(full.subrange(at, at + request.len()) =~= request);
        assert(occurs_at(full, request, at));
    }
}

/// The arguments that the command line of the elevated instance is made of.
pub open spec fn elevated_args(args: Seq<Seq<char>>) -> Seq<Seq<char>> {
    let line = joined(own_args(args));
    if contains_text(line, "--no-elevate"@) {
        own_args(args)
    } else if line.len() > 0 {
        own_args(args).push("--no-elevate"@)
    } else {
        seq!["--no-elevate"@]
    }
}

/// A text that occurs in `a`, a space and `b`, and holds no space itself, occurs in one of them.
proof fn lemma_occurs_beside_space(a: Seq<char>, b: Seq<char>, needle: Seq<char>)
    requires
        contains_text(a + " "@ + b, needle),
        forall|i: int| 0 <= i < needle.len() ==> #[trigger] needle[i] != ' ',
    ensures
        contains_text(a, needle) || contains_text(b, needle),
{
    reveal_strlit(" ");
    let s = a + " "@ + b;
    let at = choose|at: int| occurs_at(s, needle, at);
    let end = at + needle.len();
    assert(s[a.len() as int] == ' ');
    if end <= a.len() {
        assert(a.subrange(at, end) =~= s.subrange(at, end));
        assert(occurs_at(a, needle, at));
    } else if at > a.len() {
        let from = at - a.len() - 1;
        assert(b.subrange(from, from + needle.len()) =~= s.subrange(at, end));
        assert(occurs_at(b, needle, from));
    } else {
        assert(s.subrange(at, end)[a.len() - at] == ' ');
    }
}

/// A text without a space that occurs in joined texts occurs in one of them.
proof fn lemma_occurs_in_joined(list: Seq<Seq<char>>, needle: Seq<char>) -> (i: int)
    requires
        contains_text(joined(list), needle),
        needle.len() > 0,
        forall|i: int| 0 <= i < needle.len() ==> #[trigger] needle[i] != ' ',
    ensures
        0 <= i < list.len(),
        contains_text(list[i], needle),
    decreases list.len(),
{
    if list.len() == 0 {
        let at = choose|at: int| occurs_at(joined(list), needle, at);
        assert(occurs_at(joined(list), needle, at));
        0
    } else if list.len() == 1 {
        0
    } else {
        lemma_occurs_beside_space(joined(list.drop_last()), list.last(), needle);
        if contains_text(list.last(), needle) {
            list.len() - 1
        } else {
            lemma_occurs_in_joined(list.drop_last(), needle)
        }
    }
}

/// The elevated instance does not elevate again, where no argument merely holds the request
/// without being it: the arguments that its command line is made of have the flag that
/// `parse_args` looks for.
pub proof fn elevated_instance_does_not_elevate(args: Seq<Seq<char>>)
    requires
        forall|i: int|
            1 <= i < args.len() && contains_text(#[trigger] args[i], "--no-elevate"@) ==> args[i]
                == "--no-elevate"@,
    ensures
        elevated_line(args) == joined(elevated_args(args)),
        elevated_args(args).contains("--no-elevate"@),
{
    reveal_strlit("--no-elevate");
    let request = "--no-elevate"@;
    let own = own_args(args);
    let line = joined(own);
    let list = elevated_args(args);
    if contains_text(line, request) {
        let i = lemma_occurs_in_joined(own, request);
        assert(own[i] == args[i + 1]);
    } else if line.len() > 0 {
        assert(list.drop_last() =~= own);
        assert(list.last() == request);
    } else {
        assert(list[0] == request);
    }
}

/// What to try next in order to run with elevated rights.
#[derive(Debug, PartialEq, Eq)]
pub enum ElevationStep {
    /// Run this scheduled task, which asks nobody.
    RunTask(String),
    /// Have the shell run the program, which asks the user.
    AskShell,
    /// Try no more. The program runs with elevated rights or does not.
    Finished { started: bool },
}

/// The next step, given what came of those before, in order: whether each started the program.
/// The first that did is the last. The tasks come first, then the shell.
pub fn elevation_step(username: &str, outcomes: &Vec<bool>) -> (step: ElevationStep)
    ensures
        outcomes@.contains(true) ==> step == (ElevationStep::Finished { started: true }),
        !outcomes@.contains(true) ==> match step {
            ElevationStep::RunTask(name) => {
                &&& outcomes@.len() < 2
                &&& name@ == task_names(username@)[outcomes@.len() as int]
            },
            ElevationStep::AskShell => outcomes@.len() == 2,
            ElevationStep::Finished { started } => outcomes@.len() > 2 && !started,
        },
{
    let mut i: usize = 0;
    while i < outcomes.len()
        invariant
            i <= outcomes@.len(),
            forall|j: int| 0 <= j < i ==> !outcomes@[j],
        decreases outcomes@.len() - i,
    {
        if outcomes[i] {
            assert(outcomes@[i as int]);
            return ElevationStep::Finished { started: true };
        }
        i = i + 1;
    }
    let tasks: Vec<String> = elevation_tasks(username);
    assert(tasks@.len() == arg_texts(tasks@).len());
    let tried: usize = outcomes.len();
    if tried < tasks.len() {
        assert(arg_texts(tasks@)[tried as int] == tasks@[tried as int]@);
        ElevationStep::RunTask(tasks[tried].clone())
    } else if tried == tasks.len() {
        ElevationStep::AskShell
    } else {
        ElevationStep::Finished { started: false }
    }
}

// ---------------------------------------------------------------------------------------
// What the command line means
// ---------------------------------------------------------------------------------------

/// The arguments are taken as texts one by one.
pub proof fn arguments_are_texts(args: Seq<String>, i: int)
    requires
        0 <= i < args.len(),
    ensures
        arg_texts(args).len() == args.len(),
        arg_texts(args)[i] == args[i]@,
{
}

/// The value of a flag is the argument behind its first occurrence, where there is one behind.
pub proof fn value_stands_behind_the_flag(args: Seq<Seq<char>>, flag: Seq<char>, n: int)
    ensures
        0 <= n < args.len() && args[n] == flag && (forall|i: int|
            0 <= i < n ==> #[trigger] args[i] != flag) ==> value_after(args, flag) == (if n + 1
            < args.len() {
            Some(args[n + 1])
        } else {
            None
        }),
        !args.contains(flag) ==> value_after(args, flag) is None,
{
    lemma_flag_at(args, flag);
    if 0 <= n < args.len() && args[n] == flag && (forall|i: int|
        0 <= i < n ==> #[trigger] args[i] != flag) {
        assert(args.contains(flag));
        assert(flag_at(args, flag) == n) by {
            if flag_at(args, flag) < n {
                assert(args[flag_at(args, flag)] != flag);
            }
        }
    }
}

/// The port is the number behind `--port`, where that is a number up to 65535, and else 9090.
pub proof fn port_is_asked_for_or_9090(args: Seq<Seq<char>>)
    ensures
        match value_after(args, "--port"@) {
            Some(value) => {
                &&& unsigned_value(value, 65535) is Some ==> port_option(args) == unsigned_value(
                    value,
                    65535,
                )->0
                &&& unsigned_value(value, 65535) is None ==> port_option(args) == 9090
            },
            None => port_option(args) == 9090,
        },
{
}

/// Texts are joined with one space between any two.
pub proof fn texts_are_joined_with_spaces(a: Seq<Seq<char>>, b: Seq<Seq<char>>, text: Seq<char>)
    ensures
        joined(Seq::<Seq<char>>::empty()) == Seq::<char>::empty(),
        joined(seq![text]) == text,
        a.len() > 0 && b.len() > 0 ==> joined(a + b) == joined(a) + seq![' '] + joined(b),
    decreases b.len(),
{
    reveal_strlit(" ");
    assert(" "@ =~= seq![' ']);
    if a.len() > 0 && b.len() == 1 {
        assert((a + b).drop_last() =~= a);
        assert((a + b).last() == b[0]);
    } else if a.len() > 0 && b.len() > 1 {
        texts_are_joined_with_spaces(a, b.drop_last(), text);
        assert((a + b).drop_last() =~= a + b.drop_last());
        assert((a + b).last() == b.last());
        assert(joined(a + b) =~= joined(a) + seq![' '] + joined(b));
    }
}

/// The command line of the elevated instance is that of this one without the program's name, as
/// it is where it holds `--no-elevate`, and else with that behind it, and a space between where
/// there is anything.
pub proof fn elevated_line_is_the_line_and_the_request(program: Seq<char>, rest: Seq<Seq<char>>)
    ensures
        ({
            let line = joined(rest);
            let elevated = elevated_line(seq![program] + rest);
            &&& contains_text(line, "--no-elevate"@) ==> elevated == line
            &&& !contains_text(line, "--no-elevate"@) && line.len() > 0 ==> elevated == line + seq![
                ' ',
            ] + "--no-elevate"@
            &&& !contains_text(line, "--no-elevate"@) && line.len() == 0 ==> elevated
                == "--no-elevate"@
        }),
        elevated_line(Seq::<Seq<char>>::empty()) == "--no-elevate"@,
{
    reveal_strlit(" ");
    reveal_strlit("--no-elevate");
    assert(" "@ =~= seq![' ']);
    assert((seq![program] + rest).drop_first() =~= rest);
    let none = joined(Seq::<Seq<char>>::empty());
    if contains_text(none, "--no-elevate"@) {
        let at = choose|at: int| occurs_at(none, "--no-elevate"@, at);
        assert(occurs_at(none, "--no-elevate"@, at));
    }
}

/// There are two tasks: first that of the machine, then that of the user.
pub proof fn tasks_of_machine_and_user(username: Seq<char>)
    ensures
        task_names(username).len() == 2,
        task_names(username)[0] == "DualWindowWorker_Global"@,
        task_names(username)[1] == "DualWindowWorker_"@ + username,
{
}

} // verus!
