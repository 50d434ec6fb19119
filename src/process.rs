use vstd::prelude::*;
use crate::bytes::{append, bytes_eq, copy_bytes, decimal, push_decimal};

verus! {

/// How an external command is run.
#[derive(Clone, Copy, Debug, PartialEq, Eq, Structural)]
pub enum Mode {
    /// Output is collected while the loop goes on.
    Background,
    /// The command owns the terminal until it exits.
    Foreground,
}

/// An external command to run: program, arguments, the bytes to write to
/// its standard input, and the mode.
#[derive(Debug)]
pub struct ProcessCall {
    pub program: Vec<u8>,
    pub args: Vec<Vec<u8>>,
    pub input: Vec<u8>,
    pub mode: Mode,
}

/// Why an edit could not start.
#[derive(Clone, Copy, Debug, PartialEq, Eq, Structural)]
pub enum EditorError {
    /// No editor command is configured.
    EditorNotSet,
}

pub open spec fn words(args: Seq<Vec<u8>>) -> Seq<Seq<u8>> {
    args.map_values(|a: Vec<u8>| a@)
}

impl ProcessCall {
    pub open spec fn is(&self, program: Seq<u8>, args: Seq<Seq<u8>>, input: Seq<u8>, mode: Mode) -> bool {
        &&& self.program@ == program
        &&& words(self.args@) == args
        &&& self.input@ == input
        &&& self.mode == mode
    }
}

pub open spec fn git_word() -> Seq<u8> { seq![103u8, 105, 116] }
pub open spec fn fetch_word() -> Seq<u8> { seq![102u8, 101, 116, 99, 104] }
pub open spec fn all_flag() -> Seq<u8> { seq![45u8, 45, 97, 108, 108] }
pub open spec fn push_word() -> Seq<u8> { seq![112u8, 117, 115, 104] }
pub open spec fn pull_word() -> Seq<u8> { seq![112u8, 117, 108, 108] }
pub open spec fn add_word() -> Seq<u8> { seq![97u8, 100, 100] }
pub open spec fn restore_word() -> Seq<u8> { seq![114u8, 101, 115, 116, 111, 114, 101] }
pub open spec fn staged_flag() -> Seq<u8> { seq![45u8, 45, 115, 116, 97, 103, 101, 100] }
pub open spec fn apply_word() -> Seq<u8> { seq![97u8, 112, 112, 108, 121] }
pub open spec fn cached_flag() -> Seq<u8> { seq![45u8, 45, 99, 97, 99, 104, 101, 100] }
pub open spec fn reverse_flag() -> Seq<u8> { seq![45u8, 45, 114, 101, 118, 101, 114, 115, 101] }
pub open spec fn commit_word() -> Seq<u8> { seq![99u8, 111, 109, 109, 105, 116] }

fn git_call(args: Vec<Vec<u8>>, input: Vec<u8>, mode: Mode) -> (r: ProcessCall)
    ensures
        r.program@ == git_word(),
        r.args == args,
        r.input == input,
        r.mode == mode,
{
    ProcessCall { program: vec![103u8, 105, 116], args, input, mode }
}

/// `git fetch --all`, in the background.
pub fn fetch_all_cmd() -> (r: ProcessCall)
    ensures
        r.is(git_word(), seq![fetch_word(), all_flag()], seq![], Mode::Background),
{
    let r = git_call(vec![vec![102u8, 101, 116, 99, 104], vec![45u8, 45, 97, 108, 108]], Vec::new(), Mode::Background);
    assert(words(r.args@) =~= seq![fetch_word(), all_flag()]);
    r
}

/// `git push`, in the background.
pub fn push_cmd() -> (r: ProcessCall)
    ensures
        r.is(git_word(), seq![push_word()], seq![], Mode::Background),
{
    let r = git_call(vec![vec![112u8, 117, 115, 104]], Vec::new(), Mode::Background);
    assert(words(r.args@) =~= seq![push_word()]);
    r
}

/// `git pull`, in the background.
pub fn pull_cmd() -> (r: ProcessCall)
    ensures
        r.is(git_word(), seq![pull_word()], seq![], Mode::Background),
{
    let r = git_call(vec![vec![112u8, 117, 108, 108]], Vec::new(), Mode::Background);
    assert(words(r.args@) =~= seq![pull_word()]);
    r
}

/// `git commit`, handed the terminal.
pub fn commit_cmd() -> (r: ProcessCall)
    ensures
        r.is(git_word(), seq![commit_word()], seq![], Mode::Foreground),
{
    let r = git_call(vec![vec![99u8, 111, 109, 109, 105, 116]], Vec::new(), Mode::Foreground);
    assert(words(r.args@) =~= seq![commit_word()]);
    r
}

/// `git add <path>`, in the background.
pub fn stage_file_cmd(path: &Vec<u8>) -> (r: ProcessCall)
    ensures
        r.is(git_word(), seq![add_word(), path@], seq![], Mode::Background),
{
    let r = git_call(vec![vec![97u8, 100, 100], copy_bytes(path)], Vec::new(), Mode::Background);
    assert(words(r.args@) =~= seq![add_word(), path@]);
    r
}

/// `git restore --staged <path>`, in the background.
pub fn unstage_file_cmd(path: &Vec<u8>) -> (r: ProcessCall)
    ensures
        r.is(git_word(), seq![restore_word(), staged_flag(), path@], seq![], Mode::Background),
{
    let r = git_call(
        vec![vec![114u8, 101, 115, 116, 111, 114, 101], vec![45u8, 45, 115, 116, 97, 103, 101, 100], copy_bytes(path)],
        Vec::new(),
        Mode::Background,
    );
    assert(words(r.args@) =~= seq![restore_word(), staged_flag(), path@]);
    r
}

/// `git apply --cached`, fed `patch`, in the background.
pub fn stage_patch_cmd(patch: Vec<u8>) -> (r: ProcessCall)
    ensures
        r.is(git_word(), seq![apply_word(), cached_flag()], patch@, Mode::Background),
{
    let r = git_call(vec![vec![97u8, 112, 112, 108, 121], vec![45u8, 45, 99, 97, 99, 104, 101, 100]], patch, Mode::Background);
    assert(words(r.args@) =~= seq![apply_word(), cached_flag()]);
    r
}

/// `git apply --cached --reverse`, fed `patch`, in the background.
pub fn unstage_patch_cmd(patch: Vec<u8>) -> (r: ProcessCall)
    ensures
        r.is(git_word(), seq![apply_word(), cached_flag(), reverse_flag()], patch@, Mode::Background),
{
    let r = git_call(
        vec![
            vec![97u8, 112, 112, 108, 121],
            vec![45u8, 45, 99, 97, 99, 104, 101, 100],
            vec![45u8, 45, 114, 101, 118, 101, 114, 115, 101],
        ],
        patch,
        Mode::Background,
    );
    assert(words(r.args@) =~= seq![apply_word(), cached_flag(), reverse_flag()]);
    r
}

/// Editors that take the line as a `+<line>` argument before the path.
pub open spec fn takes_plus_line(editor: Seq<u8>) -> bool {
    ||| editor == seq![118u8, 105]
    ||| editor == seq![118u8, 105, 109]
    ||| editor == seq![110u8, 118, 105, 109]
    ||| editor == seq![110u8, 97, 110, 111]
}

/// The arguments that open `path`, at `line` if given, in `editor`.
pub open spec fn editor_args(editor: Seq<u8>, path: Seq<u8>, line: Option<u64>) -> Seq<Seq<u8>> {
    match line {
        None => seq![path],
        Some(n) => if takes_plus_line(editor) {
            seq![seq![43u8] + decimal(n as nat), path]
        } else {
            seq![path + seq![58u8] + decimal(n as nat)]
        },
    }
}

fn editor_arg_list(e: &Vec<u8>, path: &Vec<u8>, line: Option<u64>) -> (r: Vec<Vec<u8>>)
    ensures
        words(r@) == editor_args(e@, path@, line),
{
    match line {
        None => {
            let a = vec![copy_bytes(path)];
            assert(words(a@) =~= editor_args(e@, path@, line));
            a
        },
        Some(n) => {
            let plus = bytes_eq(e, &vec![118u8, 105]) || bytes_eq(e, &vec![118u8, 105, 109])
                || bytes_eq(e, &vec![110u8, 118, 105, 109]) || bytes_eq(e, &vec![110u8, 97, 110, 111]);
            assert(plus == takes_plus_line(e@));
            if plus {
                let mut a: Vec<u8> = vec![43u8];
                push_decimal(&mut a, n);
                assert(a@ =~= seq![43u8] + decimal(n as nat));
                let v = vec![a, copy_bytes(path)];
                assert(words(v@) =~= editor_args(e@, path@, line));
                v
            } else {
                let mut a = copy_bytes(path);
                a.push(58u8);
                push_decimal(&mut a, n);
                assert(a@ =~= path@ + seq![58u8] + decimal(n as nat));
                let v = vec![a];
                assert(words(v@) =~= editor_args(e@, path@, line));
                v
            }
        },
    }
}

/// The command that opens `path` (at `line`, if given) in the editor, which
/// takes the terminal. Without an editor nothing is to be run.
pub fn editor_cmd(editor: &Option<Vec<u8>>, path: &Vec<u8>, line: Option<u64>) -> (r: Result<ProcessCall, EditorError>)
    ensures
        editor is None <==> r == Err::<ProcessCall, EditorError>(EditorError::EditorNotSet),
        editor matches Some(e) ==> (r matches Ok(c) && c.is(e@, editor_args(e@, path@, line), seq![], Mode::Foreground)),
{
    let e = match editor {
        Some(e) => e,
        None => return Err(EditorError::EditorNotSet),
    };
    let args = editor_arg_list(e, path, line);
    let r = ProcessCall { program: copy_bytes(e), args, input: Vec::new(), mode: Mode::Foreground };
    Ok(r)
}

/// The command line as shown to the user: the program and its arguments,
/// separated by spaces.
pub open spec fn command_line(program: Seq<u8>, args: Seq<Seq<u8>>) -> Seq<u8>
    decreases args.len(),
{
    if args.len() == 0 {
        program
    } else {
        command_line(program, args.drop_last()) + seq![32u8] + args.last()
    }
}

impl ProcessCall {
    /// The command line of this call, for display.
    pub fn display(&self) -> (r: Vec<u8>)
        ensures
            r@ == command_line(self.program@, words(self.args@)),
    {
        let mut out = copy_bytes(&self.program);
        let mut i: usize = 0;
        while i < self.args.len()
            invariant
                i <= self.args@.len(),
                out@ == command_line(self.program@, words(self.args@.subrange(0, i as int))),
            decreases self.args@.len() - i,
        {
            proof {
                let s = words(self.args@.subrange(0, i as int + 1));
                assert(s.drop_last() =~= words(self.args@.subrange(0, i as int)));
                assert(s.last() == self.args@[i as int]@);
            }
            out.push(32u8);
            append(&mut out, &self.args[i]);
            i = i + 1;
        }
        assert(self.args@.subrange(0, self.args@.len() as int) =~= self.args@);
        out
    }
}

} // verus!
