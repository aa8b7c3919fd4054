//! What is asked of the container that hosts the traced program, and what is
//! made of its answers: the request for running a command, the output
//! gathered from its log, and the process number read from that output.

use crate::shell::{find_word_end, word_at};
use vstd::prelude::*;

verus! {

/// The texts of a list, in order.
pub open spec fn texts_view(texts: Seq<String>) -> Seq<Seq<char>> {
    texts.map_values(|text: String| text@)
}

/// A request to run a command in the container.
#[derive(Debug)]
pub struct ExecRequest {
    /// The program and its arguments.
    pub cmd: Vec<String>,
    /// The environment, each entry as `NAME=value`.
    pub env: Vec<String>,
    /// The directory to run in, where one is asked for.
    pub working_dir: Option<String>,
    /// Whether what the command writes is wanted.
    pub attach_stdout: bool,
    /// Whether the command is to be written to.
    pub attach_stdin: bool,
}

/// One piece of a command's log.
#[derive(Debug)]
pub enum LogChunk {
    /// Bytes that the command wrote to its standard output.
    StdOut(Vec<u8>),
    /// Anything else: error output, input echoed, console output.
    Other,
}

/// The entry for a variable of the environment: name, `=`, and the value
/// where the variable has one.
pub open spec fn env_entry_spec(name: Seq<char>, value: Option<Seq<char>>) -> Seq<char> {
    match value {
        Some(v) => name + seq!['='] + v,
        None => name + seq!['='],
    }
}

/// The entries for a list of variables, in order.
pub open spec fn env_entries(envs: Seq<(String, Option<String>)>) -> Seq<Seq<char>> {
    Seq::new(
        envs.len(),
        |i: int|
            env_entry_spec(
                envs[i].0@,
                match envs[i].1 {
                    Some(v) => Some(v@),
                    None => None,
                },
            ),
    )
}

/// The entry for a variable of the environment.
pub fn env_entry(name: &str, value: &Option<String>) -> (entry: String)
    ensures
        entry@ == env_entry_spec(
            name@,
            match value {
                Some(v) => Some(v@),
                None => None,
            },
        ),
{
    let mut entry = String::from_str(name);
    entry.append("=");
    proof {
        reveal_strlit("=");
        assert("="@ =~= seq!['=']);
    }
    match value {
        Some(v) => {
            entry.append(v.as_str());
        },
        None => {},
    }
    entry
}

/// The request for running a program with arguments, an environment and,
/// where one is given, a working directory, and for gathering what it
/// writes. The program goes first among the words of the command.
pub fn exec_request(
    program: &str,
    args: &Vec<String>,
    envs: &Vec<(String, Option<String>)>,
    working_dir: Option<String>,
) -> (request: ExecRequest)
    ensures
        texts_view(request.cmd@) == seq![program@] + texts_view(args@),
        texts_view(request.env@) == env_entries(envs@),
        request.working_dir == working_dir,
        request.attach_stdout,
        !request.attach_stdin,
{
    let mut cmd: Vec<String> = Vec::new();
    cmd.push(String::from_str(program));
    let mut i: usize = 0;
    while i < args.len()
        invariant
            i <= args.len(),
            cmd.len() == i + 1,
            cmd@[0]@ == program@,
            forall|k: int| 0 <= k < i ==> (#[trigger] cmd@[k + 1])@ == args@[k]@,
        decreases args.len() - i,
    {
        cmd.push(args[i].clone());
        i = i + 1;
    }
    let mut env: Vec<String> = Vec::new();
    let mut j: usize = 0;
    while j < envs.len()
        invariant
            j <= envs.len(),
            env.len() == j,
            forall|k: int| 0 <= k < j ==> (#[trigger] env@[k])@ == env_entries(envs@)[k],
        decreases envs.len() - j,
    {
        env.push(env_entry(envs[j].0.as_str(), &envs[j].1));
        j = j + 1;
    }
    proof {
        assert forall|k: int| 0 <= k < cmd.len() implies #[trigger] texts_view(cmd@)[k] == (
        seq![program@] + texts_view(args@))[k] by {
            if k > 0 {
                assert(cmd@[(k - 1) + 1]@ == args@[k - 1]@);
            }
        }
        assert(texts_view(cmd@) =~= seq![program@] + texts_view(args@));
        assert(texts_view(env@) =~= env_entries(envs@));
    }
    ExecRequest { cmd, env, working_dir, attach_stdout: true, attach_stdin: false }
}

/// The request that asks for the number of a process by the process's name.
pub fn pid_request(process: &str) -> (request: ExecRequest)
    ensures
        texts_view(request.cmd@) == seq!["pidof"@, process@],
        request.env@.len() == 0,
        request.working_dir is None,
        request.attach_stdout,
        !request.attach_stdin,
{
    let mut args: Vec<String> = Vec::new();
    args.push(String::from_str(process));
    let request = exec_request("pidof", &args, &Vec::new(), None);
    proof {
        assert(texts_view(request.cmd@) =~= seq!["pidof"@, process@]);
        assert(texts_view(request.env@).len() == 0);
    }
    request
}

/// The bookkeeping of one container: its name at the daemon, and whether it
/// has been cleaned up.
pub struct Container {
    id: String,
    killed: bool,
}

impl Container {
    /// The name of the container at the daemon.
    pub closed spec fn id_spec(&self) -> Seq<char> {
        self.id@
    }

    /// Whether the container has been cleaned up.
    pub closed spec fn killed_spec(&self) -> bool {
        self.killed
    }

    /// The bookkeeping of a container that has just been started.
    pub fn new(id: String) -> (container: Container)
        ensures
            container.id_spec() == id@,
            !container.killed_spec(),
    {
        Container { id, killed: false }
    }

    /// The name of the container at the daemon.
    pub fn id(&self) -> (id: &String)
        ensures
            id@ == self.id_spec(),
    {
        &self.id
    }

    /// Takes note that the container is being cleaned up.
    pub fn cleanup(&mut self)
        ensures
            final(self).id_spec() == old(self).id_spec(),
            final(self).killed_spec(),
    {
        self.killed = true;
    }

    /// Whether the container is let go of without having been cleaned up,
    /// which deserves a warning.
    pub fn abandoned(&self) -> (yes: bool)
        ensures
            yes == !self.killed_spec(),
    {
        !self.killed
    }
}

/// The text that bytes decode to when every ill-formed stretch of them is
/// replaced by the replacement character.
pub uninterp spec fn lossy_text(bytes: Seq<u8>) -> Seq<char>;

/// `String::from_utf8_lossy` of std: the text of the bytes, with the
/// replacement character where they are not UTF-8. Bytes that are UTF-8 give
/// the text they encode.
#[verifier::external_body]
fn decode_lossy(bytes: &Vec<u8>) -> (text: String)
    ensures
        text@ == lossy_text(bytes@),
        vstd::utf8::valid_utf8(bytes@) ==> text@ == vstd::utf8::decode_utf8(bytes@),
{
    String::from_utf8_lossy(bytes).into_owned()
}

/// The texts that a log's pieces of standard output hold, in order.
pub open spec fn stdout_texts(chunks: Seq<LogChunk>) -> Seq<Seq<char>>
    decreases chunks.len(),
{
    if chunks.len() == 0 {
        Seq::empty()
    } else {
        match chunks.last() {
            LogChunk::StdOut(bytes) => stdout_texts(chunks.drop_last()).push(lossy_text(bytes@)),
            LogChunk::Other => stdout_texts(chunks.drop_last()),
        }
    }
}

/// The lines joined, a line end between each two.
pub open spec fn join_lines(lines: Seq<Seq<char>>) -> Seq<char>
    decreases lines.len(),
{
    if lines.len() == 0 {
        Seq::empty()
    } else if lines.len() == 1 {
        lines[0]
    } else {
        join_lines(lines.drop_last()) + seq!['\n'] + lines.last()
    }
}

/// Whether a character is white space: a character with the Unicode property
/// `White_Space`.
pub open spec fn is_white_space(c: char) -> bool {
    let code = c as u32;
    ||| 0x09 <= code <= 0x0d
    ||| code == 0x20
    ||| code == 0x85
    ||| code == 0xa0
    ||| code == 0x1680
    ||| 0x2000 <= code <= 0x200a
    ||| code == 0x2028
    ||| code == 0x2029
    ||| code == 0x202f
    ||| code == 0x205f
    ||| code == 0x3000
}

/// The text without the white space at its end.
pub open spec fn trim_end_spec(text: Seq<char>) -> Seq<char>
    decreases text.len(),
{
    if text.len() > 0 && is_white_space(text.last()) {
        trim_end_spec(text.drop_last())
    } else {
        text
    }
}

/// The output of a command as its log gives it: the pieces of standard
/// output, each on a line of its own, without the white space at the end.
pub open spec fn output_of(chunks: Seq<LogChunk>) -> Seq<char> {
    trim_end_spec(join_lines(stdout_texts(chunks)))
}

/// Whether a character is white space.
pub fn white_space(c: char) -> (yes: bool)
    ensures
        yes == is_white_space(c),
{
    let code = c as u32;
    (0x09 <= code && code <= 0x0d) || code == 0x20 || code == 0x85 || code == 0xa0 || code == 0x1680
        || (0x2000 <= code && code <= 0x200a) || code == 0x2028 || code == 0x2029 || code == 0x202f
        || code == 0x205f || code == 0x3000
}

/// The text without the white space at its end.
pub fn trim_end(text: &str) -> (trimmed: String)
    ensures
        trimmed@ == trim_end_spec(text@),
{
    let mut end: usize = text.unicode_len();
    proof {
        assert(text@.subrange(0, end as int) =~= text@);
    }
    let mut more = end > 0 && white_space(text.get_char(end - 1));
    while more
        invariant
            end <= text@.len(),
            more == (end > 0 && is_white_space(text@[end - 1])),
            trim_end_spec(text@) == trim_end_spec(text@.subrange(0, end as int)),
        decreases end,
    {
        proof {
            assert(text@.subrange(0, end as int).last() == text@[end - 1]);
            assert(text@.subrange(0, end as int).drop_last() =~= text@.subrange(0, end - 1));
        }
        end = end - 1;
        more = end > 0 && white_space(text.get_char(end - 1));
    }
    proof {
        if end > 0 {
            assert(text@.subrange(0, end as int).last() == text@[end - 1]);
        }
    }
    String::from_str(text.substring_char(0, end))
}

/// Gathers the output of a command from its log.
pub fn collect_output(chunks: &Vec<LogChunk>) -> (output: String)
    ensures
        output@ == output_of(chunks@),
{
    let mut joined = String::new();
    let mut count: usize = 0;
    let mut i: usize = 0;
    proof {
        assert(chunks@.take(0) =~= Seq::<LogChunk>::empty());
    }
    while i < chunks.len()
        invariant
            i <= chunks.len(),
            count <= i,
            count == stdout_texts(chunks@.take(i as int)).len(),
            joined@ == join_lines(stdout_texts(chunks@.take(i as int))),
        decreases chunks.len() - i,
    {
        proof {
            assert(chunks@.take(i + 1).drop_last() =~= chunks@.take(i as int));
            assert(chunks@.take(i + 1).last() == chunks@[i as int]);
        }
        match &chunks[i] {
            LogChunk::StdOut(bytes) => {
                let text = decode_lossy(bytes);
                let ghost before = stdout_texts(chunks@.take(i as int));
                proof {
                    assert(before.push(text@).drop_last() =~= before);
                    reveal_strlit("\n");
                    assert("\n"@ =~= seq!['\n']);
                    if count == 0 {
                        assert(before =~= Seq::empty());
                        assert(joined@ + text@ =~= text@);
                    }
                }
                if count > 0 {
                    joined.append("\n");
                }
                joined.append(text.as_str());
                count = count + 1;
            },
            LogChunk::Other => {},
        }
        i = i + 1;
    }
    proof {
        assert(chunks@.take(chunks.len() as int) =~= chunks@);
    }
    trim_end(joined.as_str())
}

/// Whether a character is one of the digits 0 to 9.
pub open spec fn is_digit(c: char) -> bool {
    '0' <= c <= '9'
}

/// The number that a run of decimal digits denotes.
pub open spec fn decimal_value(digits: Seq<char>) -> nat
    decreases digits.len(),
{
    if digits.len() == 0 {
        0
    } else {
        10 * decimal_value(digits.drop_last()) + (digits.last() as u32 - '0' as u32) as nat
    }
}

/// Whether a text is made of digits alone.
pub open spec fn all_digits(digits: Seq<char>) -> bool {
    forall|i: int| 0 <= i < digits.len() ==> is_digit(#[trigger] digits[i])
}

/// The number that digits denote, negated where `negative` is set. There is
/// none where there are no digits, where something else stands among them,
/// or where the number does not fit in 64 bits.
pub open spec fn signed_number(negative: bool, digits: Seq<char>) -> Option<i64> {
    if digits.len() == 0 || !all_digits(digits) {
        None
    } else if negative {
        if decimal_value(digits) <= 0x8000_0000_0000_0000 {
            Some((-decimal_value(digits)) as i64)
        } else {
            None
        }
    } else {
        if decimal_value(digits) <= 0x7fff_ffff_ffff_ffff {
            Some(decimal_value(digits) as i64)
        } else {
            None
        }
    }
}

/// The number that a text denotes: digits, with a sign before them or
/// without, and nothing else.
pub open spec fn parse_i64(text: Seq<char>) -> Option<i64> {
    if text.len() > 0 && (text[0] == '-' || text[0] == '+') {
        signed_number(text[0] == '-', text.skip(1))
    } else {
        signed_number(false, text)
    }
}

/// The process number in the answer to a query for it: the first word of the
/// answer, read as a number.
pub open spec fn pid_of(response: Seq<char>) -> Option<i64> {
    parse_i64(word_at(response, 0))
}

/// More digits make no smaller a number.
pub proof fn lemma_decimal_value_grows(digits: Seq<char>, upto: int)
    requires
        0 <= upto <= digits.len(),
    ensures
        decimal_value(digits.take(upto)) <= decimal_value(digits),
    decreases digits.len() - upto,
{
    if upto < digits.len() {
        lemma_decimal_value_grows(digits, upto + 1);
        assert(digits.take(upto + 1).drop_last() =~= digits.take(upto));
    } else {
        assert(digits.take(upto) =~= digits);
    }
}

/// Reads a text as a signed number of 64 bits.
#[verifier::loop_isolation(false)]
pub fn parse_number(text: &str) -> (number: Option<i64>)
    ensures
        number == parse_i64(text@),
{
    let len = text.unicode_len();
    if len == 0 {
        return None;
    }
    let first = text.get_char(0);
    let negative = first == '-';
    let start: usize = if first == '-' || first == '+' {
        1
    } else {
        0
    };
    if start == len {
        return None;
    }
    let ghost digits = text@.skip(start as int);
    proof {
        assert(text@.skip(0) =~= text@);
    }
    let mut value: u64 = 0;
    let mut i: usize = start;
    proof {
        assert(digits.take(0) =~= Seq::<char>::empty());
    }
    while i < len
        invariant
            start <= i <= len,
            len == text@.len(),
            digits == text@.skip(start as int),
            forall|k: int| 0 <= k < i - start ==> is_digit(#[trigger] digits[k]),
            value == decimal_value(digits.take(i - start)),
            value <= 0x8000_0000_0000_0000,
        decreases len - i,
    {
        let c = text.get_char(i);
        proof {
            assert(digits[i - start] == c);
            assert(digits.take(i - start + 1).drop_last() =~= digits.take(i - start));
            assert(digits.take(i - start + 1).last() == c);
            lemma_decimal_value_grows(digits, i - start + 1);
        }
        if !('0' <= c && c <= '9') {
            proof {
                assert(!is_digit(digits[i - start]));
            }
            return None;
        }
        let digit: u64 = (c as u32 - '0' as u32) as u64;
        let next: u64 = match value.checked_mul(10) {
            Some(tens) => match tens.checked_add(digit) {
                Some(sum) => sum,
                None => {
                    return None;
                },
            },
            None => {
                return None;
            },
        };
        if next > 0x8000_0000_0000_0000 {
            return None;
        }
        value = next;
        i = i + 1;
    }
    proof {
        assert(digits.take(len - start) =~= digits);
    }
    if negative {
        if value == 0x8000_0000_0000_0000 {
            Some(i64::MIN)
        } else {
            Some(0 - (value as i64))
        }
    } else if value <= 0x7fff_ffff_ffff_ffff {
        Some(value as i64)
    } else {
        None
    }
}

/// Reads the process number from the answer to a query for it.
pub fn parse_pid(response: &str) -> (pid: Option<i64>)
    ensures
        pid == pid_of(response@),
{
    let end = find_word_end(response, 0);
    parse_number(response.substring_char(0, end))
}

} // verus!
