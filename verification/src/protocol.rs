//! The line protocol between a render server and its clients.
//!
//! The server sends `TASK <id> <start> <end> <width> <height>` and, when the
//! image is written, `SHUTDOWN`; a client answers `RESULT <id> <length>`
//! followed by the raw pixel bytes. The server's console takes the commands
//! `clients`, `start` and `quit` (or `exit`).
use vstd::prelude::*;
use vstd::string::*;
use crate::text;

verus! {

/// A block of rows that the server hands to one client.
#[derive(Clone, Copy, Debug, PartialEq, Eq, Structural)]
pub struct TaskHeader {
    pub task_id: u32,
    pub start_row: usize,
    pub end_row: usize,
    pub width: usize,
    pub height: usize,
}

/// What a client makes of a line from the server.
#[derive(Debug)]
pub enum ServerMessage {
    Task(TaskHeader),
    /// A line that begins with `TASK` but has not six fields.
    MalformedTask,
    Shutdown,
    /// Any other line, trimmed.
    Unknown(String),
}

/// What the server makes of the header line of a client's reply.
#[derive(Clone, Copy, Debug, PartialEq, Eq, Structural)]
pub enum ResultReply {
    /// Not three fields, or the first is not `RESULT`.
    Invalid,
    /// A reply that announces no bytes.
    Empty { task_id: u32 },
    Payload { task_id: u32, byte_len: usize },
}

/// A command typed on the server's console.
#[derive(Debug)]
pub enum ConsoleCommand {
    Clients,
    Start,
    Quit,
    Blank,
    /// Any other command, trimmed.
    Unknown(String),
}

pub open spec fn task_word() -> Seq<char> {
    seq!['T', 'A', 'S', 'K']
}

pub open spec fn result_word() -> Seq<char> {
    seq!['R', 'E', 'S', 'U', 'L', 'T']
}

pub open spec fn shutdown_word() -> Seq<char> {
    seq!['S', 'H', 'U', 'T', 'D', 'O', 'W', 'N']
}

/// Fields joined by single spaces.
pub open spec fn join_fields(f: Seq<Seq<char>>) -> Seq<char>
    decreases f.len(),
{
    if f.len() == 0 {
        seq![]
    } else if f.len() == 1 {
        f[0]
    } else {
        f[0] + seq![' '] + join_fields(f.drop_first())
    }
}

/// A protocol line: its fields joined by spaces, then a newline.
pub open spec fn protocol_line(f: Seq<Seq<char>>) -> Seq<char> {
    join_fields(f) + seq!['\n']
}

pub open spec fn task_fields(h: TaskHeader) -> Seq<Seq<char>> {
    seq![
        task_word(),
        text::decimal(h.task_id as nat),
        text::decimal(h.start_row as nat),
        text::decimal(h.end_row as nat),
        text::decimal(h.width as nat),
        text::decimal(h.height as nat),
    ]
}

/// `TASK <id> <start> <end> <width> <height>` and a newline.
pub open spec fn task_line(h: TaskHeader) -> Seq<char> {
    protocol_line(task_fields(h))
}

/// `RESULT <id> <length>` and a newline.
pub open spec fn result_line(task_id: u32, byte_len: usize) -> Seq<char> {
    protocol_line(seq![result_word(), text::decimal(task_id as nat), text::decimal(byte_len as nat)])
}

pub open spec fn begins_with(s: Seq<char>, p: Seq<char>) -> bool {
    p.len() <= s.len() && s.subrange(0, p.len() as int) == p
}

/// The header that six fields of a task line describe; a field that is no
/// number reads as zero.
pub open spec fn task_from_fields(parts: Seq<Seq<char>>) -> TaskHeader {
    TaskHeader {
        task_id: text::unsigned_or_zero(parts[1], u32::MAX as nat) as u32,
        start_row: text::unsigned_or_zero(parts[2], usize::MAX as nat) as usize,
        end_row: text::unsigned_or_zero(parts[3], usize::MAX as nat) as usize,
        width: text::unsigned_or_zero(parts[4], usize::MAX as nat) as usize,
        height: text::unsigned_or_zero(parts[5], usize::MAX as nat) as usize,
    }
}

/// `m` is what a client makes of `line`.
pub open spec fn reads_server_line(line: Seq<char>, m: ServerMessage) -> bool {
    let cmd = text::trimmed(line);
    if begins_with(cmd, task_word()) {
        let parts = text::words(cmd);
        if parts.len() != 6 {
            m is MalformedTask
        } else {
            m == ServerMessage::Task(task_from_fields(parts))
        }
    } else if cmd == shutdown_word() {
        m is Shutdown
    } else {
        m matches ServerMessage::Unknown(t) && t@ == cmd
    }
}

/// What the server makes of a reply header line.
pub open spec fn result_reply(line: Seq<char>) -> ResultReply {
    let parts = text::words(line);
    if parts.len() != 3 || parts[0] != result_word() {
        ResultReply::Invalid
    } else {
        let task_id = text::unsigned_or_zero(parts[1], u32::MAX as nat) as u32;
        let byte_len = text::unsigned_or_zero(parts[2], usize::MAX as nat) as usize;
        if byte_len == 0 {
            ResultReply::Empty { task_id }
        } else {
            ResultReply::Payload { task_id, byte_len }
        }
    }
}

/// `c` is the console command that `line` stands for.
pub open spec fn reads_console_line(line: Seq<char>, c: ConsoleCommand) -> bool {
    let cmd = text::trimmed(line);
    if cmd == seq!['c', 'l', 'i', 'e', 'n', 't', 's'] {
        c is Clients
    } else if cmd == seq!['s', 't', 'a', 'r', 't'] {
        c is Start
    } else if cmd == seq!['q', 'u', 'i', 't'] || cmd == seq!['e', 'x', 'i', 't'] {
        c is Quit
    } else if cmd.len() == 0 {
        c is Blank
    } else {
        c matches ConsoleCommand::Unknown(t) && t@ == cmd
    }
}

fn push_field(out: &mut String, n: u64)
    ensures
        final(out)@ == old(out)@ + seq![' '] + text::decimal(n as nat),
{
    proof {
        reveal_strlit(" ");
    }
    out.append(" ");
    text::push_decimal(out, n);
}

/// The line that hands a task to a client.
pub fn format_task_line(h: &TaskHeader) -> (line: String)
    ensures
        line@ == task_line(*h),
{
    proof {
        reveal_strlit("TASK");
        reveal_strlit("\n");
    }
    let mut line = "TASK".to_owned();
    let ghost f0 = seq![task_word()];
    assert(line@ == join_fields(f0));
    push_field(&mut line, h.task_id as u64);
    let ghost f1 = f0.push(text::decimal(h.task_id as nat));
    proof { lemma_join_push(f0, text::decimal(h.task_id as nat)); }
    push_field(&mut line, h.start_row as u64);
    let ghost f2 = f1.push(text::decimal(h.start_row as nat));
    proof { lemma_join_push(f1, text::decimal(h.start_row as nat)); }
    push_field(&mut line, h.end_row as u64);
    let ghost f3 = f2.push(text::decimal(h.end_row as nat));
    proof { lemma_join_push(f2, text::decimal(h.end_row as nat)); }
    push_field(&mut line, h.width as u64);
    let ghost f4 = f3.push(text::decimal(h.width as nat));
    proof { lemma_join_push(f3, text::decimal(h.width as nat)); }
    push_field(&mut line, h.height as u64);
    let ghost f5 = f4.push(text::decimal(h.height as nat));
    proof { lemma_join_push(f4, text::decimal(h.height as nat)); }
    assert(line@ == join_fields(f5));
    line.append("\n");
    assert(f5 =~= task_fields(*h));
    line
}

/// The header line of a client's reply.
pub fn format_result_line(task_id: u32, byte_len: usize) -> (line: String)
    ensures
        line@ == result_line(task_id, byte_len),
{
    proof {
        reveal_strlit("RESULT");
        reveal_strlit("\n");
    }
    let mut line = "RESULT".to_owned();
    let ghost f0 = seq![result_word()];
    assert(line@ == join_fields(f0));
    push_field(&mut line, task_id as u64);
    let ghost f1 = f0.push(text::decimal(task_id as nat));
    proof { lemma_join_push(f0, text::decimal(task_id as nat)); }
    push_field(&mut line, byte_len as u64);
    let ghost f2 = f1.push(text::decimal(byte_len as nat));
    proof { lemma_join_push(f1, text::decimal(byte_len as nat)); }
    line.append("\n");
    assert(f2 =~= seq![result_word(), text::decimal(task_id as nat), text::decimal(byte_len as nat)]);
    line
}

/// The line that tells clients to stop.
pub fn format_shutdown_line() -> (line: String)
    ensures
        line@ == protocol_line(seq![shutdown_word()]),
{
    proof {
        reveal_strlit("SHUTDOWN\n");
    }
    let line = "SHUTDOWN\n".to_owned();
    assert(line@ =~= protocol_line(seq![shutdown_word()]));
    line
}

fn word_at(parts: &Vec<String>, i: usize) -> (w: &str)
    requires
        i < parts.len(),
    ensures
        w@ == parts@[i as int]@,
{
    parts[i].as_str()
}

fn usize_field(s: &str) -> (v: usize)
    ensures
        v == text::unsigned_or_zero(s@, usize::MAX as nat) as usize,
{
    text::unsigned_or_zero_text(s, usize::MAX as u64) as usize
}

fn u32_field(s: &str) -> (v: u32)
    ensures
        v == text::unsigned_or_zero(s@, u32::MAX as nat) as u32,
{
    text::unsigned_or_zero_text(s, u32::MAX as u64) as u32
}

/// Reads a line that a client received from the server.
pub fn read_server_line(line: &str) -> (m: ServerMessage)
    ensures
        reads_server_line(line@, m),
{
    proof {
        reveal_strlit("TASK");
        reveal_strlit("SHUTDOWN");
        assert("TASK"@ =~= task_word());
        assert("SHUTDOWN"@ =~= shutdown_word());
    }
    let cmd = text::trim_text(line);
    if text::has_prefix(cmd.as_str(), "TASK") {
        let parts = text::split_words(cmd.as_str());
        assert(parts@.len() == text::words(cmd@).len());
        if parts.len() != 6 {
            return ServerMessage::MalformedTask;
        }
        proof {
            assert forall|i: int| 0 <= i < 6 implies parts@[i]@ == text::words(cmd@)[i] by {
                assert(text::string_views(parts@)[i] == parts@[i]@);
            }
        }
        let header = TaskHeader {
            task_id: u32_field(word_at(&parts, 1)),
            start_row: usize_field(word_at(&parts, 2)),
            end_row: usize_field(word_at(&parts, 3)),
            width: usize_field(word_at(&parts, 4)),
            height: usize_field(word_at(&parts, 5)),
        };
        ServerMessage::Task(header)
    } else if text::same_text(cmd.as_str(), "SHUTDOWN") {
        ServerMessage::Shutdown
    } else {
        ServerMessage::Unknown(cmd)
    }
}

/// Reads the header line of a client's reply.
pub fn read_result_line(line: &str) -> (r: ResultReply)
    ensures
        r == result_reply(line@),
{
    proof {
        reveal_strlit("RESULT");
        assert("RESULT"@ =~= result_word());
    }
    let parts = text::split_words(line);
    assert(parts@.len() == text::words(line@).len());
    if parts.len() != 3 {
        return ResultReply::Invalid;
    }
    proof {
        assert forall|i: int| 0 <= i < 3 implies parts@[i]@ == text::words(line@)[i] by {
            assert(text::string_views(parts@)[i] == parts@[i]@);
        }
    }
    if !text::same_text(word_at(&parts, 0), "RESULT") {
        return ResultReply::Invalid;
    }
    let task_id = u32_field(word_at(&parts, 1));
    let byte_len = usize_field(word_at(&parts, 2));
    if byte_len == 0 {
        ResultReply::Empty { task_id }
    } else {
        ResultReply::Payload { task_id, byte_len }
    }
}

/// Reads a command typed on the server's console.
pub fn read_console_line(line: &str) -> (c: ConsoleCommand)
    ensures
        reads_console_line(line@, c),
{
    proof {
        reveal_strlit("clients");
        reveal_strlit("start");
        reveal_strlit("quit");
        reveal_strlit("exit");
        assert("clients"@ =~= seq!['c', 'l', 'i', 'e', 'n', 't', 's']);
        assert("start"@ =~= seq!['s', 't', 'a', 'r', 't']);
        assert("quit"@ =~= seq!['q', 'u', 'i', 't']);
        assert("exit"@ =~= seq!['e', 'x', 'i', 't']);
    }
    let cmd = text::trim_text(line);
    if text::same_text(cmd.as_str(), "clients") {
        ConsoleCommand::Clients
    } else if text::same_text(cmd.as_str(), "start") {
        ConsoleCommand::Start
    } else if text::same_text(cmd.as_str(), "quit") || text::same_text(cmd.as_str(), "exit") {
        ConsoleCommand::Quit
    } else if cmd.as_str().unicode_len() == 0 {
        ConsoleCommand::Blank
    } else {
        ConsoleCommand::Unknown(cmd)
    }
}

pub open spec fn plain_field(w: Seq<char>) -> bool {
    &&& w.len() > 0
    &&& forall|i: int| 0 <= i < w.len() ==> !text::is_space(#[trigger] w[i])
}

pub open spec fn all_space(t: Seq<char>) -> bool {
    forall|i: int| 0 <= i < t.len() ==> text::is_space(#[trigger] t[i])
}

/// A text of spaces only holds no word.
pub proof fn lemma_words_all_space(t: Seq<char>)
    requires
        all_space(t),
    ensures
        text::words_from(t, seq![]) == Seq::<Seq<char>>::empty(),
    decreases t.len(),
{
    if t.len() > 0 {
        assert forall|i: int| 0 <= i < t.drop_first().len() implies text::is_space(
            #[trigger] t.drop_first()[i],
        ) by {
            assert(t.drop_first()[i] == t[i + 1]);
        }
        lemma_words_all_space(t.drop_first());
        assert(text::is_space(t[0]));
        assert(Seq::<Seq<char>>::empty() + Seq::<Seq<char>>::empty() =~= Seq::<Seq<char>>::empty());
    }
}

/// Adding a field at the end of joined fields adds a space and the field.
pub proof fn lemma_join_push(f: Seq<Seq<char>>, w: Seq<char>)
    requires
        f.len() > 0,
    ensures
        join_fields(f.push(w)) == join_fields(f) + seq![' '] + w,
    decreases f.len(),
{
    let g = f.push(w);
    if f.len() == 1 {
        assert(g.drop_first() =~= seq![w]);
        assert(join_fields(g.drop_first()) == w);
    } else {
        lemma_join_push(f.drop_first(), w);
        assert(g.drop_first() =~= f.drop_first().push(w));
        assert(join_fields(g) =~= join_fields(f) + seq![' '] + w);
    }
}

/// Fields of non-space characters, joined by spaces and followed by spaces
/// only, split back into the same fields.
pub proof fn lemma_words_of_joined(f: Seq<Seq<char>>, t: Seq<char>)
    requires
        f.len() > 0,
        forall|i: int| 0 <= i < f.len() ==> plain_field(#[trigger] f[i]),
        all_space(t),
    ensures
        text::words(join_fields(f) + t) == f,
        join_fields(f).len() > 0,
        !text::is_space(join_fields(f)[0]),
        !text::is_space(join_fields(f).last()),
        join_fields(f).subrange(0, f[0].len() as int) == f[0],
    decreases f.len(),
{
    let f0 = f[0];
    assert(plain_field(f0));
    if f.len() == 1 {
        assert(join_fields(f) == f0);
        text::lemma_words_run(f0, t, seq![]);
        assert(Seq::<char>::empty() + f0 =~= f0);
        lemma_words_all_space(t);
        if t.len() > 0 {
            text::lemma_words_space(t[0], t.drop_first(), f0);
            assert(seq![t[0]] + t.drop_first() =~= t);
            assert forall|i: int| 0 <= i < t.drop_first().len() implies text::is_space(
                #[trigger] t.drop_first()[i],
            ) by {
                assert(t.drop_first()[i] == t[i + 1]);
            }
            lemma_words_all_space(t.drop_first());
            assert(seq![f0] + Seq::<Seq<char>>::empty() =~= seq![f0]);
        }
        assert(f =~= seq![f0]);
        assert(f0.subrange(0, f0.len() as int) =~= f0);
    } else {
        let rest = f.drop_first();
        assert forall|i: int| 0 <= i < rest.len() implies plain_field(#[trigger] rest[i]) by {
            assert(rest[i] == f[i + 1]);
        }
        lemma_words_of_joined(rest, t);
        let j = join_fields(rest);
        assert(join_fields(f) == f0 + seq![' '] + j);
        assert(join_fields(f) + t =~= f0 + (seq![' '] + (j + t)));
        text::lemma_words_run(f0, seq![' '] + (j + t), seq![]);
        assert(Seq::<char>::empty() + f0 =~= f0);
        assert(text::is_space(' '));
        text::lemma_words_space(' ', j + t, f0);
        assert(seq![f0] + rest =~= f);
        assert(join_fields(f).last() == j.last());
        assert(join_fields(f).subrange(0, f0.len() as int) =~= f0);
    }
}

/// Trimming a protocol line drops its newline and nothing else.
pub proof fn lemma_trim_protocol_line(f: Seq<Seq<char>>)
    requires
        f.len() > 0,
        forall|i: int| 0 <= i < f.len() ==> plain_field(#[trigger] f[i]),
    ensures
        text::trimmed(protocol_line(f)) == join_fields(f),
{
    lemma_words_of_joined(f, seq![]);
    let j = join_fields(f);
    let line = protocol_line(f);
    assert(line[0] == j[0]);
    assert(text::trim_start(line) == line);
    assert(text::is_space('\n'));
    assert(line.drop_last() =~= j);
    assert(text::trim_end(line) == text::trim_end(j));
    assert(text::trim_end(j) == j);
}

proof fn lemma_task_fields_plain(h: TaskHeader)
    ensures
        forall|i: int| 0 <= i < 6 ==> plain_field(#[trigger] task_fields(h)[i]),
{
    text::lemma_decimal_no_space(h.task_id as nat);
    text::lemma_decimal_no_space(h.start_row as nat);
    text::lemma_decimal_no_space(h.end_row as nat);
    text::lemma_decimal_no_space(h.width as nat);
    text::lemma_decimal_no_space(h.height as nat);
    let f = task_fields(h);
    assert forall|i: int| 0 <= i < 6 implies plain_field(#[trigger] f[i]) by {
        if i == 0 {
            assert(f[0] == task_word());
        }
    }
}

/// A client reads back from a task line exactly the task that the server
/// wrote into it.
pub proof fn lemma_task_line_round_trip(h: TaskHeader)
    ensures
        reads_server_line(task_line(h), ServerMessage::Task(h)),
{
    let f = task_fields(h);
    lemma_task_fields_plain(h);
    lemma_trim_protocol_line(f);
    lemma_words_of_joined(f, seq![]);
    assert(join_fields(f) + Seq::<char>::empty() =~= join_fields(f));
    let cmd = text::trimmed(task_line(h));
    assert(cmd == join_fields(f));
    assert(begins_with(cmd, task_word()));
    assert(text::words(cmd) == f);
    text::lemma_parse_decimal(h.task_id as nat, u32::MAX as nat);
    text::lemma_parse_decimal(h.start_row as nat, usize::MAX as nat);
    text::lemma_parse_decimal(h.end_row as nat, usize::MAX as nat);
    text::lemma_parse_decimal(h.width as nat, usize::MAX as nat);
    text::lemma_parse_decimal(h.height as nat, usize::MAX as nat);
    assert(task_from_fields(f) == h);
}

/// A client reads the shutdown line as the order to stop.
pub proof fn lemma_shutdown_line_read(m: ServerMessage)
    requires
        reads_server_line(protocol_line(seq![shutdown_word()]), m),
    ensures
        m is Shutdown,
{
    let f = seq![shutdown_word()];
    assert forall|i: int| 0 <= i < 1 implies plain_field(#[trigger] f[i]) by {
        assert(f[0] == shutdown_word());
    }
    lemma_trim_protocol_line(f);
    assert(join_fields(f) == shutdown_word());
    let cmd = text::trimmed(protocol_line(f));
    assert(cmd == shutdown_word());
    assert(!begins_with(cmd, task_word())) by {
        assert(cmd.subrange(0, 4)[0] == 'S');
    }
}

/// The server reads back from a reply header the task and length that the
/// client wrote into it.
pub proof fn lemma_result_line_round_trip(task_id: u32, byte_len: usize)
    ensures
        result_reply(result_line(task_id, byte_len)) == (if byte_len == 0 {
            ResultReply::Empty { task_id }
        } else {
            ResultReply::Payload { task_id, byte_len }
        }),
{
    let f = seq![result_word(), text::decimal(task_id as nat), text::decimal(byte_len as nat)];
    text::lemma_decimal_no_space(task_id as nat);
    text::lemma_decimal_no_space(byte_len as nat);
    assert forall|i: int| 0 <= i < 3 implies plain_field(#[trigger] f[i]) by {
        if i == 0 {
            assert(f[0] == result_word());
        }
    }
    assert(all_space(seq!['\n'])) by {
        assert(text::is_space('\n'));
    }
    lemma_words_of_joined(f, seq!['\n']);
    assert(result_line(task_id, byte_len) == join_fields(f) + seq!['\n']);
    text::lemma_parse_decimal(task_id as nat, u32::MAX as nat);
    text::lemma_parse_decimal(byte_len as nat, usize::MAX as nat);
}

} // verus!
