//! The shell session's bookkeeping: which directory the shell is in, and what
//! is typed into it for a command.
//!
//! The shell runs in a container, so its paths follow the rules of Unix
//! whatever the host is.

use vstd::prelude::*;

verus! {

/// Where the word that starts at `from` ends: at the next space, or at the
/// end of the text.
pub open spec fn word_end(text: Seq<char>, from: int) -> int
    decreases text.len() - from,
{
    if from < 0 || from >= text.len() {
        text.len() as int
    } else if text[from] == ' ' {
        from
    } else {
        word_end(text, from + 1)
    }
}

/// The word that starts at `from`.
pub open spec fn word_at(text: Seq<char>, from: int) -> Seq<char> {
    text.subrange(from, word_end(text, from))
}

/// The path that results from pushing `part` onto `base`: an absolute part
/// takes the place of the base; any other is added to it, after a separator
/// where the base does not end in one.
pub open spec fn push_path(base: Seq<char>, part: Seq<char>) -> Seq<char> {
    if part.len() > 0 && part[0] == '/' {
        part
    } else if base.len() > 0 && base.last() != '/' {
        base + seq!['/'] + part
    } else {
        base + part
    }
}

/// The directory that the shell is taken to be in after a command: a command
/// whose first word is `cd` and that has a second word pushes that word onto
/// the directory; any other command leaves it.
pub open spec fn cwd_after(cwd: Seq<char>, command: Seq<char>) -> Seq<char> {
    let end = word_end(command, 0);
    if word_at(command, 0) == "cd"@ && end < command.len() {
        push_path(cwd, word_at(command, end + 1))
    } else {
        cwd
    }
}

/// What is typed into the shell for a command: the command and a line end,
/// with the flag that keeps colours on after a command whose first word is
/// `cargo`.
pub open spec fn input_for(command: Seq<char>) -> Seq<char> {
    if word_at(command, 0) == "cargo"@ {
        command + " --color=always"@ + "\n"@
    } else {
        command + "\n"@
    }
}

/// Finds where the word that starts at `from` ends.
pub fn find_word_end(text: &str, from: usize) -> (end: usize)
    requires
        from <= text@.len(),
    ensures
        end == word_end(text@, from as int),
        from <= end <= text@.len(),
{
    let len = text.unicode_len();
    let mut at: usize = from;
    while at < len && text.get_char(at) != ' '
        invariant
            from <= at <= len,
            len == text@.len(),
            word_end(text@, from as int) == word_end(text@, at as int),
        decreases len - at,
    {
        at = at + 1;
    }
    at
}

/// Pushes `part` onto the path `base`.
pub fn push_onto(base: &String, part: &str) -> (path: String)
    ensures
        path@ == push_path(base@, part@),
{
    let part_len = part.unicode_len();
    if part_len > 0 && part.get_char(0) == '/' {
        return String::from_str(part);
    }
    let base_len = base.as_str().unicode_len();
    let mut path = base.clone();
    if base_len > 0 && base.as_str().get_char(base_len - 1) != '/' {
        path.append("/");
        proof {
            reveal_strlit("/");
            assert("/"@ =~= seq!['/']);
        }
    }
    path.append(part);
    path
}

/// The bookkeeping of one shell session.
pub struct Shell {
    cwd: String,
}

impl Shell {
    /// The directory that the shell is taken to be in.
    pub closed spec fn view_cwd(&self) -> Seq<char> {
        self.cwd@
    }

    /// A session that starts at the root directory.
    pub fn new() -> (shell: Shell)
        ensures
            shell.view_cwd() == "/"@,
    {
        Shell { cwd: String::from_str("/") }
    }

    /// The directory that the shell is taken to be in.
    pub fn cwd(&self) -> (cwd: &String)
        ensures
            cwd@ == self.view_cwd(),
    {
        &self.cwd
    }

    /// Takes note of a command and gives what is to be typed into the shell
    /// for it.
    pub fn run(&mut self, command: &str) -> (input: String)
        ensures
            final(self).view_cwd() == cwd_after(old(self).view_cwd(), command@),
            input@ == input_for(command@),
    {
        let len = command.unicode_len();
        let first_end = find_word_end(command, 0);
        let first = String::from_str(command.substring_char(0, first_end));
        let is_cd = first == String::from_str("cd");
        if is_cd && first_end < len {
            let second_end = find_word_end(command, first_end + 1);
            let second = command.substring_char(first_end + 1, second_end);
            self.cwd = push_onto(&self.cwd, second);
        }
        let mut input = String::from_str(command);
        let is_cargo = first == String::from_str("cargo");
        if is_cargo {
            input.append(" --color=always");
        }
        input.append("\n");
        input
    }
}

} // verus!
