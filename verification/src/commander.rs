//! The jj invocations: their command lines, and what their failures say.
use vstd::prelude::*;

use crate::env::DiffFormat;
use crate::env::DiffFormatView;
use crate::env::Env;
use crate::text::copy_string;
use crate::text::decimal;
use crate::text::decimal_string;
use crate::text::push_arg;
use crate::text::remove_end_line_of;
use crate::text::strs;
use crate::text::views_of;
use crate::text::without_end_line;

verus! {

/// An error of the operating system (`std::io::Error`).
#[verifier::external_type_specification]
#[verifier::external_body]
pub struct ExIoError(std::io::Error);

/// An error decoding UTF-8 (`std::string::FromUtf8Error`).
#[verifier::external_type_specification]
#[verifier::external_body]
pub struct ExFromUtf8Error(std::string::FromUtf8Error);

/// The arguments that set how jj writes its output: no pager, color on or
/// off, and `--quiet` where asked for.
pub open spec fn output_args(color: bool, quiet: bool) -> Seq<Seq<char>> {
    seq!["--no-pager"@, "--color"@, if color { "always"@ } else { "never"@ }]
        + if quiet { seq!["--quiet"@] } else { Seq::<Seq<char>>::empty() }
}

/// The arguments that set how jj writes its output.
pub fn get_output_args(color: bool, quiet: bool) -> (res: Vec<String>)
    ensures
        strs(res@) == output_args(color, quiet),
{
    let mut res: Vec<String> = Vec::new();
    push_arg(&mut res, "--no-pager");
    push_arg(&mut res, "--color");
    if color {
        push_arg(&mut res, "always");
    } else {
        push_arg(&mut res, "never");
    }
    if quiet {
        push_arg(&mut res, "--quiet");
    }
    proof {
        assert(strs(res@) =~= output_args(color, quiet));
    }
    res
}

/// The arguments that select a diff format.
pub open spec fn diff_args(f: DiffFormatView) -> Seq<Seq<char>> {
    match f {
        DiffFormatView::ColorWords => seq!["--color-words"@],
        DiffFormatView::Git => seq!["--git"@],
        DiffFormatView::Summary => seq!["--summary"@],
        DiffFormatView::Stat => seq!["--stat"@],
        DiffFormatView::DiffTool(Some(tool)) => seq!["--tool"@, tool],
        DiffFormatView::DiffTool(None) => Seq::empty(),
    }
}

impl DiffFormat {
    /// The arguments that select this diff format.
    pub fn get_args(&self) -> (res: Vec<&str>)
        ensures
            views_of(res@) == diff_args(self@),
    {
        let mut res: Vec<&str> = Vec::new();
        match self {
            DiffFormat::ColorWords => res.push("--color-words"),
            DiffFormat::Git => res.push("--git"),
            DiffFormat::Summary => res.push("--summary"),
            DiffFormat::Stat => res.push("--stat"),
            DiffFormat::DiffTool(Some(tool)) => {
                res.push("--tool");
                res.push(tool.as_str());
            },
            DiffFormat::DiffTool(None) => {},
        }
        proof {
            assert(views_of(res@) =~= diff_args(self@));
        }
        res
    }
}

/// Append the arguments that select the diff format `f`.
pub fn push_diff_args(args: &mut Vec<String>, f: &DiffFormat)
    ensures
        strs(final(args)@) == strs(old(args)@) + diff_args(f@),
{
    let ghost base = strs(args@);
    let a = f.get_args();
    let mut i: usize = 0;
    while i < a.len()
        invariant
            i <= a@.len(),
            views_of(a@) == diff_args(f@),
            strs(args@) == base + views_of(a@).take(i as int),
        decreases a@.len() - i,
    {
        push_arg(args, a[i]);
        proof {
            assert(views_of(a@).take(i + 1) =~= views_of(a@).take(i as int).push(a@[i as int]@));
        }
        i = i + 1;
    }
    proof {
        assert(views_of(a@).take(i as int) =~= views_of(a@));
    }
}

/// `--ignore-working-copy` when asked for, nothing otherwise.
pub open spec fn ignore_working_copy_args(ignore_working_copy: bool) -> Seq<Seq<char>> {
    if ignore_working_copy {
        seq!["--ignore-working-copy"@]
    } else {
        Seq::empty()
    }
}

/// Why a jj invocation failed.
#[derive(Debug)]
pub enum CommandError {
    /// jj could not be run, or its output not read.
    Output(std::io::Error),
    /// jj ended with an error: what it wrote on standard error, and its exit
    /// code.
    Status(String, Option<i32>),
    /// jj's output is not UTF-8.
    FromUtf8(std::string::FromUtf8Error),
}

/// The message of an error of the operating system (its `Display`); nothing
/// is stated of it, as it depends on the system.
#[verifier::external_body]
fn io_error_text(e: &std::io::Error) -> String {
    format!("{}", e)
}

/// The message of an error decoding UTF-8 (its `Display`); nothing is stated
/// of it.
#[verifier::external_body]
fn utf8_error_text(e: &std::string::FromUtf8Error) -> String {
    format!("{}", e)
}

impl CommandError {
    /// The message of the error; for a failed jj, exactly what jj wrote on
    /// standard error.
    pub fn message(&self) -> (res: String)
        ensures
            self matches CommandError::Status(text, _) ==> res@ == text@,
            self is Output ==> has_prefix_text(res@, "Error getting output: "@),
            self is FromUtf8 ==> has_prefix_text(res@, "Error parsing UTF-8 output: "@),
    {
        match self {
            CommandError::Output(e) => {
                let mut res = copy_string("Error getting output: ");
                let t = io_error_text(e);
                res.push_str(t.as_str());
                proof {
                    assert(res@.take("Error getting output: "@.len() as int) =~= "Error getting output: "@);
                }
                res
            },
            CommandError::Status(text, _) => copy_string(text.as_str()),
            CommandError::FromUtf8(e) => {
                let mut res = copy_string("Error parsing UTF-8 output: ");
                let t = utf8_error_text(e);
                res.push_str(t.as_str());
                proof {
                    assert(res@.take("Error parsing UTF-8 output: "@.len() as int) =~= "Error parsing UTF-8 output: "@);
                }
                res
            },
        }
    }
}

/// Whether `s` starts with `p`.
pub open spec fn has_prefix_text(s: Seq<char>, p: Seq<char>) -> bool {
    p.len() <= s.len() && s.take(p.len() as int) == p
}

/// Strings that can lose one final line ending.
pub trait RemoveEndLine: Sized {
    /// The value without one final line ending (`"\n"` or `"\r\n"`).
    fn remove_end_line(self) -> Self;
}

impl RemoveEndLine for String {
    fn remove_end_line(self) -> (res: String)
        ensures
            res@ == without_end_line(self@),
    {
        remove_end_line_of(self.as_str())
    }
}

/// The narrowest width that is handed on to jj: narrower requests give
/// garbage output and are ignored.
pub const MIN_SETTABLE_WIDTH: usize = 20;

/// A reusable handle to a repository: the environment shared by every jj
/// invocation.
#[derive(Debug, Clone)]
pub struct Commander {
    pub env: Env,
    pub columns: Option<usize>,
    pub jj_config_toml: Option<Vec<String>>,
    pub force_no_color: bool,
}

/// The arguments that hand configuration values to jj: `--config` before
/// each of them.
pub open spec fn config_args(cfgs: Seq<Seq<char>>) -> Seq<Seq<char>>
    decreases cfgs.len(),
{
    if cfgs.len() == 0 {
        Seq::empty()
    } else {
        config_args(cfgs.drop_last()) + seq!["--config"@, cfgs.last()]
    }
}

/// The environment variables of every command of a commander: `COLUMNS`
/// where a width was set.
pub open spec fn env_vars(columns: Option<usize>) -> Seq<(Seq<char>, Seq<char>)> {
    match columns {
        Some(c) => seq![("COLUMNS"@, decimal(c as nat))],
        None => Seq::empty(),
    }
}

/// The views of pairs of strings.
pub open spec fn pair_views(v: Seq<(String, String)>) -> Seq<(Seq<char>, Seq<char>)> {
    v.map_values(|p: (String, String)| (p.0@, p.1@))
}

/// The views of optional configuration values.
pub open spec fn opt_strs(v: Option<Vec<String>>) -> Seq<Seq<char>> {
    match v {
        Some(cfgs) => strs(cfgs@),
        None => Seq::empty(),
    }
}

/// A copy of a list of strings.
fn copy_strings(v: &Vec<String>) -> (res: Vec<String>)
    ensures
        strs(res@) == strs(v@),
{
    let mut res: Vec<String> = Vec::new();
    let mut i: usize = 0;
    while i < v.len()
        invariant
            i <= v@.len(),
            strs(res@) == strs(v@.take(i as int)),
        decreases v@.len() - i,
    {
        push_arg(&mut res, v[i].as_str());
        proof {
            assert(strs(v@.take(i + 1)) =~= strs(v@.take(i as int)).push(v@[i as int]@));
        }
        i = i + 1;
    }
    proof {
        assert(v@.take(i as int) =~= v@);
    }
    res
}

impl Commander {
    /// A commander for the repository of `env`.
    pub fn new(env: &Env) -> (res: Commander)
        ensures
            res.columns is None,
            res.jj_config_toml is None,
            !res.force_no_color,
            res.env.root@ == env.root@,
            res.env.jj_bin@ == env.jj_bin@,
    {
        let e = env.clone();
        let root = copy_string(env.root.as_str());
        let jj_bin = copy_string(env.jj_bin.as_str());
        Commander {
            env: Env { root, jj_bin, jj_config: e.jj_config, default_revset: e.default_revset },
            columns: None,
            jj_config_toml: None,
            force_no_color: false,
        }
    }

    /// Hand the width `columns` on to every command of this commander, as
    /// `COLUMNS`; a width under [MIN_SETTABLE_WIDTH] is ignored.
    pub fn limit_width(&mut self, columns: usize)
        ensures
            final(self).columns == (if columns >= MIN_SETTABLE_WIDTH { Some(columns) } else { old(self).columns }),
            final(self).env == old(self).env,
            final(self).jj_config_toml == old(self).jj_config_toml,
            final(self).force_no_color == old(self).force_no_color,
    {
        if columns >= MIN_SETTABLE_WIDTH {
            self.columns = Some(columns);
        }
    }

    /// A single jj invocation with the given arguments: quiet and without
    /// color until asked otherwise.
    pub fn jj(&self, args: &[&str]) -> (res: JjCommand)
        ensures
            res.program@ == self.env.jj_bin@,
            res.dir@ == self.env.root@,
            strs(res.args@) == views_of(args@),
            strs(res.config@) == opt_strs(self.jj_config_toml),
            !res.color,
            res.quiet,
            res.force_no_color == self.force_no_color,
            res.stdin is None,
            pair_views(res.env_var@) == env_vars(self.columns),
    {
        let mut env_var: Vec<(String, String)> = Vec::new();
        if let Some(columns) = self.columns {
            env_var.push((copy_string("COLUMNS"), decimal_string(columns)));
        }
        let mut a: Vec<String> = Vec::new();
        let mut i: usize = 0;
        while i < args.len()
            invariant
                i <= args@.len(),
                strs(a@) == views_of(args@.take(i as int)),
            decreases args@.len() - i,
        {
            push_arg(&mut a, args[i]);
            proof {
                assert(views_of(args@.take(i + 1)) =~= views_of(args@.take(i as int)).push(args@[i as int]@));
            }
            i = i + 1;
        }
        proof {
            assert(args@.take(i as int) =~= args@);
            assert(pair_views(env_var@) =~= env_vars(self.columns));
        }
        let config = match &self.jj_config_toml {
            Some(cfgs) => copy_strings(cfgs),
            None => Vec::new(),
        };
        proof {
            if self.jj_config_toml is None {
                assert(strs(config@) =~= Seq::<Seq<char>>::empty());
            }
        }
        JjCommand {
            program: copy_string(self.env.jj_bin.as_str()),
            dir: copy_string(self.env.root.as_str()),
            args: a,
            config,
            color: false,
            quiet: true,
            force_no_color: self.force_no_color,
            stdin: None,
            env_var,
        }
    }
}

/// A single jj invocation: the program, the directory it runs in, its
/// arguments and options.
pub struct JjCommand {
    pub program: String,
    pub dir: String,
    pub args: Vec<String>,
    pub config: Vec<String>,
    pub color: bool,
    pub quiet: bool,
    pub force_no_color: bool,
    pub stdin: Option<String>,
    pub env_var: Vec<(String, String)>,
}

/// The full argument list of a command: its arguments, the output
/// arguments, and the configuration values.
pub open spec fn command_line(c: JjCommand) -> Seq<Seq<char>> {
    strs(c.args@) + output_args(!c.force_no_color && c.color, c.quiet) + config_args(strs(c.config@))
}

impl JjCommand {
    /// Ask for ANSI color in the output (unless the commander forbids it).
    pub fn color(self) -> (res: JjCommand)
        ensures
            res == (JjCommand { color: true, ..self }),
    {
        JjCommand { color: true, ..self }
    }

    /// Let jj's informational output through: no `--quiet`.
    pub fn verbose(self) -> (res: JjCommand)
        ensures
            res == (JjCommand { quiet: false, ..self }),
    {
        JjCommand { quiet: false, ..self }
    }

    /// Feed `stdin` to the command on standard input.
    pub fn stdin(self, stdin: &str) -> (res: JjCommand)
        ensures
            res.stdin matches Some(s) && s@ == stdin@,
            res.program == self.program,
            res.dir == self.dir,
            res.args == self.args,
            res.config == self.config,
            res.color == self.color,
            res.quiet == self.quiet,
            res.force_no_color == self.force_no_color,
            res.env_var == self.env_var,
    {
        JjCommand { stdin: Some(copy_string(stdin)), ..self }
    }

    /// The full argument list the command runs jj with.
    pub fn command_args(&self) -> (res: Vec<String>)
        ensures
            strs(res@) == command_line(*self),
    {
        let mut res: Vec<String> = Vec::new();
        let mut i: usize = 0;
        while i < self.args.len()
            invariant
                i <= self.args@.len(),
                strs(res@) == strs(self.args@.take(i as int)),
            decreases self.args@.len() - i,
        {
            push_arg(&mut res, self.args[i].as_str());
            proof {
                assert(strs(self.args@.take(i + 1)) =~= strs(self.args@.take(i as int)).push(self.args@[i as int]@));
            }
            i = i + 1;
        }
        proof {
            assert(self.args@.take(i as int) =~= self.args@);
        }
        let out = get_output_args(!self.force_no_color && self.color, self.quiet);
        let mut j: usize = 0;
        let ghost base = strs(res@);
        while j < out.len()
            invariant
                j <= out@.len(),
                strs(res@) == base + strs(out@).take(j as int),
            decreases out@.len() - j,
        {
            push_arg(&mut res, out[j].as_str());
            proof {
                assert(strs(out@).take(j + 1) =~= strs(out@).take(j as int).push(out@[j as int]@));
            }
            j = j + 1;
        }
        proof {
            assert(strs(out@).take(j as int) =~= strs(out@));
        }
        let ghost base2 = strs(res@);
        let mut k: usize = 0;
        while k < self.config.len()
            invariant
                k <= self.config@.len(),
                strs(res@) == base2 + config_args(strs(self.config@.take(k as int))),
            decreases self.config@.len() - k,
        {
            push_arg(&mut res, "--config");
            push_arg(&mut res, self.config[k].as_str());
            proof {
                let cs = strs(self.config@.take(k + 1));
                assert(cs.drop_last() =~= strs(self.config@.take(k as int)));
                assert(cs.last() == self.config@[k as int]@);
                assert(strs(res@) =~= base2 + config_args(cs));
            }
            k = k + 1;
        }
        proof {
            assert(self.config@.take(k as int) =~= self.config@);
            assert(strs(res@) =~= command_line(*self));
        }
        res
    }
}

} // verus!
