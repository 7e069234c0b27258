use vstd::prelude::*;

verus! {

/// A command node tagged with the byte-offset span it was read from.
/// Spans serve diagnostics only; they carry no execution meaning.
#[derive(Debug, PartialEq)]
pub struct SpannedCommand {
    pub command: Command,
    pub start: usize,
    pub end: usize,
}

/// The closed set of commands of the language. Block commands own nested
/// sequences of spanned commands, making the type a recursive tree.
#[derive(Debug, PartialEq)]
pub enum Command {
    AddInteger(i64),
    AddString(String),
    WriteInteger(i64),
    WriteString(String),
    // Movement
    MoveLeft,
    MoveRight,
    ReadMoveLeft,
    ReadMoveRight,
    MoveNLeft(u64),
    MoveNRight(u64),
    // Arithmetic
    Increment,
    Decrement,
    LeftAdd(Option<usize>),
    RightAdd(Option<usize>),
    LeftSubtract(Option<usize>),
    RightSubtract(Option<usize>),
    LeftMultiply(Option<usize>),
    RightMultiply(Option<usize>),
    LeftDivide(Option<usize>),
    RightDivide(Option<usize>),
    LeftModulo(Option<usize>),
    RightModulo(Option<usize>),
    // Control flow
    If(Vec<SpannedCommand>, Option<Vec<SpannedCommand>>),
    While(Vec<SpannedCommand>),
    Loop(Vec<SpannedCommand>),
    FunctionDefinition(String, Vec<SpannedCommand>),
    FunctionCall(String),
    GetFunction(String),
    CallFunction,
    // I/O
    OutputNumber,
    OutputChar,
    ReadKey,
    Comment,
}

/// Mathematical mirror of `SpannedCommand`: sequences instead of vectors,
/// unbounded integers instead of machine words. Contracts speak of this type.
pub struct SpannedV {
    pub command: CmdV,
    pub start: int,
    pub end: int,
}

/// Mathematical mirror of `Command`.
pub enum CmdV {
    AddInteger(i64),
    AddString(Seq<char>),
    WriteInteger(i64),
    WriteString(Seq<char>),
    MoveLeft,
    MoveRight,
    ReadMoveLeft,
    ReadMoveRight,
    MoveNLeft(u64),
    MoveNRight(u64),
    Increment,
    Decrement,
    LeftAdd(Option<usize>),
    RightAdd(Option<usize>),
    LeftSubtract(Option<usize>),
    RightSubtract(Option<usize>),
    LeftMultiply(Option<usize>),
    RightMultiply(Option<usize>),
    LeftDivide(Option<usize>),
    RightDivide(Option<usize>),
    LeftModulo(Option<usize>),
    RightModulo(Option<usize>),
    If(Seq<SpannedV>, Option<Seq<SpannedV>>),
    While(Seq<SpannedV>),
    Loop(Seq<SpannedV>),
    FunctionDefinition(Seq<char>, Seq<SpannedV>),
    FunctionCall(Seq<char>),
    GetFunction(Seq<char>),
    CallFunction,
    OutputNumber,
    OutputChar,
    ReadKey,
    Comment,
}

pub open spec fn view_cmds(s: Seq<SpannedCommand>) -> Seq<SpannedV>
    decreases s,
{
    if s.len() == 0 {
        Seq::empty()
    } else {
        view_cmds(s.drop_last()).push(view_spanned(s.last()))
    }
}

pub open spec fn view_spanned(c: SpannedCommand) -> SpannedV
    decreases c,
{
    SpannedV { command: view_cmd(c.command), start: c.start as int, end: c.end as int }
}

pub open spec fn view_cmd(c: Command) -> CmdV
    decreases c,
{
    match c {
        Command::AddInteger(i) => CmdV::AddInteger(i),
        Command::AddString(s) => CmdV::AddString(s@),
        Command::WriteInteger(i) => CmdV::WriteInteger(i),
        Command::WriteString(s) => CmdV::WriteString(s@),
        Command::MoveLeft => CmdV::MoveLeft,
        Command::MoveRight => CmdV::MoveRight,
        Command::ReadMoveLeft => CmdV::ReadMoveLeft,
        Command::ReadMoveRight => CmdV::ReadMoveRight,
        Command::MoveNLeft(n) => CmdV::MoveNLeft(n),
        Command::MoveNRight(n) => CmdV::MoveNRight(n),
        Command::Increment => CmdV::Increment,
        Command::Decrement => CmdV::Decrement,
        Command::LeftAdd(o) => CmdV::LeftAdd(o),
        Command::RightAdd(o) => CmdV::RightAdd(o),
        Command::LeftSubtract(o) => CmdV::LeftSubtract(o),
        Command::RightSubtract(o) => CmdV::RightSubtract(o),
        Command::LeftMultiply(o) => CmdV::LeftMultiply(o),
        Command::RightMultiply(o) => CmdV::RightMultiply(o),
        Command::LeftDivide(o) => CmdV::LeftDivide(o),
        Command::RightDivide(o) => CmdV::RightDivide(o),
        Command::LeftModulo(o) => CmdV::LeftModulo(o),
        Command::RightModulo(o) => CmdV::RightModulo(o),
        Command::If(t, e) => CmdV::If(
            view_cmds(t@),
            match e {
                Some(e2) => Some(view_cmds(e2@)),
                None => None,
            },
        ),
        Command::While(b) => CmdV::While(view_cmds(b@)),
        Command::Loop(b) => CmdV::Loop(view_cmds(b@)),
        Command::FunctionDefinition(n, b) => CmdV::FunctionDefinition(n@, view_cmds(b@)),
        Command::FunctionCall(n) => CmdV::FunctionCall(n@),
        Command::GetFunction(n) => CmdV::GetFunction(n@),
        Command::CallFunction => CmdV::CallFunction,
        Command::OutputNumber => CmdV::OutputNumber,
        Command::OutputChar => CmdV::OutputChar,
        Command::ReadKey => CmdV::ReadKey,
        Command::Comment => CmdV::Comment,
    }
}

/// One step of `view_cmds`, read from the front instead of the back.
pub proof fn lemma_view_cmds_take_step(s: Seq<SpannedCommand>, i: int)
    requires
        0 <= i < s.len(),
    ensures
        view_cmds(s.take(i + 1)) == view_cmds(s.take(i)).push(view_spanned(s[i])),
{
    assert(s.take(i + 1).drop_last() =~= s.take(i));
    assert(s.take(i + 1).last() == s[i]);
}

pub proof fn lemma_view_cmds_len(s: Seq<SpannedCommand>)
    ensures
        view_cmds(s).len() == s.len(),
    decreases s,
{
    if s.len() > 0 {
        lemma_view_cmds_len(s.drop_last());
    }
}

pub proof fn lemma_view_cmds_index(s: Seq<SpannedCommand>, i: int)
    requires
        0 <= i < s.len(),
    ensures
        view_cmds(s).len() == s.len(),
        view_cmds(s)[i] == view_spanned(s[i]),
    decreases s,
{
    lemma_view_cmds_len(s);
    if s.len() > 0 {
        if i < s.len() - 1 {
            lemma_view_cmds_index(s.drop_last(), i);
        }
    }
}

pub fn clone_cmds(v: &Vec<SpannedCommand>) -> (r: Vec<SpannedCommand>)
    ensures
        view_cmds(r@) == view_cmds(v@),
        r@.len() == v@.len(),
    decreases v@,
{
    let mut r: Vec<SpannedCommand> = Vec::new();
    let mut i: usize = 0;
    while i < v.len()
        invariant
            i <= v.len(),
            r@.len() == i,
            view_cmds(r@) == view_cmds(v@.take(i as int)),
        decreases v.len() - i,
    {
        proof {
            assert(decreases_to!(v@ => v@[i as int]));
        }
        let c = clone_spanned(&v[i]);
        proof {
            lemma_view_cmds_take_step(v@, i as int);
            assert(r@.push(c).drop_last() =~= r@);
        }
        r.push(c);
        i += 1;
    }
    proof {
        assert(v@.take(v@.len() as int) =~= v@);
    }
    r
}

pub fn clone_spanned(c: &SpannedCommand) -> (r: SpannedCommand)
    ensures
        view_spanned(r) == view_spanned(*c),
    decreases *c,
{
    proof {
        assert(decreases_to!(*c => c.command));
    }
    SpannedCommand { command: clone_cmd(&c.command), start: c.start, end: c.end }
}

pub fn clone_cmd(c: &Command) -> (r: Command)
    ensures
        view_cmd(r) == view_cmd(*c),
    decreases *c,
{
    match c {
        Command::AddInteger(i) => Command::AddInteger(*i),
        Command::AddString(s) => Command::AddString(s.clone()),
        Command::WriteInteger(i) => Command::WriteInteger(*i),
        Command::WriteString(s) => Command::WriteString(s.clone()),
        Command::MoveLeft => Command::MoveLeft,
        Command::MoveRight => Command::MoveRight,
        Command::ReadMoveLeft => Command::ReadMoveLeft,
        Command::ReadMoveRight => Command::ReadMoveRight,
        Command::MoveNLeft(n) => Command::MoveNLeft(*n),
        Command::MoveNRight(n) => Command::MoveNRight(*n),
        Command::Increment => Command::Increment,
        Command::Decrement => Command::Decrement,
        Command::LeftAdd(o) => Command::LeftAdd(*o),
        Command::RightAdd(o) => Command::RightAdd(*o),
        Command::LeftSubtract(o) => Command::LeftSubtract(*o),
        Command::RightSubtract(o) => Command::RightSubtract(*o),
        Command::LeftMultiply(o) => Command::LeftMultiply(*o),
        Command::RightMultiply(o) => Command::RightMultiply(*o),
        Command::LeftDivide(o) => Command::LeftDivide(*o),
        Command::RightDivide(o) => Command::RightDivide(*o),
        Command::LeftModulo(o) => Command::LeftModulo(*o),
        Command::RightModulo(o) => Command::RightModulo(*o),
        Command::If(t, e) => {
            proof {
                assert(decreases_to!(*c => *t));
                assert(decreases_to!(*t => t@));
            }
            let t2 = clone_cmds(t);
            let e2 = match e {
                Some(eb) => {
                    proof {
                        assert(decreases_to!(*c => *eb));
                        assert(decreases_to!(*eb => eb@));
                    }
                    Some(clone_cmds(eb))
                },
                None => None,
            };
            Command::If(t2, e2)
        },
        Command::While(b) => {
            proof {
                assert(decreases_to!(*c => *b));
                assert(decreases_to!(*b => b@));
            }
            Command::While(clone_cmds(b))
        },
        Command::Loop(b) => {
            proof {
                assert(decreases_to!(*c => *b));
                assert(decreases_to!(*b => b@));
            }
            Command::Loop(clone_cmds(b))
        },
        Command::FunctionDefinition(n, b) => {
            proof {
                assert(decreases_to!(*c => *b));
                assert(decreases_to!(*b => b@));
            }
            Command::FunctionDefinition(n.clone(), clone_cmds(b))
        },
        Command::FunctionCall(n) => Command::FunctionCall(n.clone()),
        Command::GetFunction(n) => Command::GetFunction(n.clone()),
        Command::CallFunction => Command::CallFunction,
        Command::OutputNumber => Command::OutputNumber,
        Command::OutputChar => Command::OutputChar,
        Command::ReadKey => Command::ReadKey,
        Command::Comment => Command::Comment,
    }
}

} // verus!
