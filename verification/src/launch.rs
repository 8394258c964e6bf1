//! How an entry is launched: which programs are looked for, with which
//! arguments the process is started, and where.

use vstd::prelude::*;
use vstd::string::*;
use vstd::utf8::{decode_utf8, encode_utf8, valid_utf8};
use crate::config::AppEntry;
use crate::laws_launch::law_terminal_flags_decide;
use crate::paths::{below, join_path, lossy, lossy_text, parent, path_parent, usual_dir};
use crate::shell::{all_quoted, shell_join, shell_words};
use crate::text::{join, joined};

verus! {

/// The programs that open a web page, the preferred one first.
pub open spec fn openers() -> Seq<Seq<char>> {
    seq!["xdg-open"@, "firefox"@, "google-chrome"@, "chromium-browser"@]
}

/// The programs that open a web page, the preferred one first.
pub fn opener_names() -> (r: Vec<String>)
    ensures
        r.deep_view() == openers(),
{
    let mut r: Vec<String> = Vec::new();
    r.push("xdg-open".to_owned());
    r.push("firefox".to_owned());
    r.push("google-chrome".to_owned());
    r.push("chromium-browser".to_owned());
    assert(r.deep_view() == openers());
    r
}

/// The terminal emulators, the preferred one first.
pub open spec fn terminals() -> Seq<Seq<char>> {
    seq!["gnome-terminal"@, "konsole"@, "xfce4-terminal"@, "xterm"@]
}

/// The argument of each terminal emulator that stands before the command.
pub open spec fn terminal_args() -> Seq<Seq<char>> {
    seq!["--"@, "-e"@, "-x"@, "-e"@]
}

/// The terminal emulators, the preferred one first.
pub fn terminal_names() -> (r: Vec<String>)
    ensures
        r.deep_view() == terminals(),
{
    let mut r: Vec<String> = Vec::new();
    r.push("gnome-terminal".to_owned());
    r.push("konsole".to_owned());
    r.push("xfce4-terminal".to_owned());
    r.push("xterm".to_owned());
    assert(r.deep_view() == terminals());
    r
}

fn terminal_arg(n: usize) -> (r: String)
    requires
        n < terminals().len(),
    ensures
        r@ == terminal_args()[n as int],
{
    if n == 0 {
        "--".to_owned()
    } else if n == 2 {
        "-x".to_owned()
    } else {
        "-e".to_owned()
    }
}

/// `found` tells of each name (row) and each directory (column) whether the
/// directory holds a file of that name.
pub open spec fn search_table(found: Seq<Vec<bool>>, names: nat, dirs: nat) -> bool {
    &&& found.len() == names
    &&& forall|n: int| 0 <= n < names ==> (#[trigger] found[n]).len() == dirs
}

/// Directory `d` holds name `n`, no directory before it does, and no earlier
/// name is found anywhere.
pub open spec fn first_hit(found: Seq<Vec<bool>>, n: int, d: int) -> bool {
    &&& 0 <= n < found.len()
    &&& 0 <= d < found[n].len()
    &&& found[n][d]
    &&& forall|e: int| 0 <= e < d ==> !#[trigger] found[n][e]
    &&& no_hit_before(found, n)
}

/// None of the first `n` names is found anywhere.
pub open spec fn no_hit_before(found: Seq<Vec<bool>>, n: int) -> bool {
    forall|m: int, e: int|
        0 <= m < n && 0 <= e < found[m].len() ==> !#[trigger] found[m][e]
}

fn search(found: &Vec<Vec<bool>>) -> (r: Option<(usize, usize)>)
    ensures
        r matches Some((n, d)) ==> first_hit(found@, n as int, d as int),
        r is None <==> no_hit_before(found@, found@.len() as int),
{
    let mut n: usize = 0;
    while n < found.len()
        invariant
            n <= found.len(),
            no_hit_before(found@, n as int),
        decreases found.len() - n,
    {
        let mut d: usize = 0;
        while d < found[n].len()
            invariant
                n < found.len(),
                d <= found[n as int].len(),
                no_hit_before(found@, n as int),
                forall|e: int| 0 <= e < d ==> !#[trigger] found[n as int][e],
            decreases found[n as int].len() - d,
        {
            if found[n][d] {
                assert(found@[n as int][d as int]);
                return Some((n, d));
            }
            d += 1;
        }
        n += 1;
    }
    None
}

/// `text` is the path of name `n` in directory `d`.
pub open spec fn names_program(
    text: Seq<char>,
    names: Seq<Seq<char>>,
    dirs: Seq<Vec<u8>>,
    n: int,
    d: int,
) -> bool {
    let path = below(dirs[d]@, encode_utf8(names[n]));
    text == lossy(path) && (valid_utf8(path) ==> text == decode_utf8(path))
}

/// The program that opens web pages: the first of the names that stands in one
/// of the directories, from the first such directory.
pub fn find_url_opener(dirs: &Vec<Vec<u8>>, found: &Vec<Vec<bool>>) -> (r: Option<String>)
    requires
        search_table(found@, openers().len(), dirs@.len()),
    ensures
        r is None <==> no_hit_before(found@, found@.len() as int),
        r matches Some(p) ==> exists|n: int, d: int|
            #[trigger] first_hit(found@, n, d) && names_program(p@, openers(), dirs@, n, d),
{
    match search(found) {
        Some((n, d)) => {
            let names = opener_names();
            assert(names.deep_view()[n as int] == names[n as int]@);
            assert(first_hit(found@, n as int, d as int));
            Some(lossy_text(&join_path(&dirs[d], names[n].as_str())))
        },
        None => None,
    }
}

/// A terminal emulator, and the arguments that stand before the command: the
/// first of the names that stands in one of the directories, from the first
/// such directory.
pub fn find_terminal(dirs: &Vec<Vec<u8>>, found: &Vec<Vec<bool>>) -> (r: Option<
    (String, Vec<String>),
>)
    requires
        search_table(found@, terminals().len(), dirs@.len()),
    ensures
        r is None <==> no_hit_before(found@, found@.len() as int),
        r matches Some((p, args)) ==> exists|n: int, d: int|
            #[trigger] first_hit(found@, n, d) && names_program(p@, terminals(), dirs@, n, d)
                && args.deep_view() == seq![terminal_args()[n]],
{
    match search(found) {
        Some((n, d)) => {
            let names = terminal_names();
            assert(names.deep_view()[n as int] == names[n as int]@);
            assert(first_hit(found@, n as int, d as int));
            let mut args: Vec<String> = Vec::new();
            args.push(terminal_arg(n));
            assert(args.deep_view() == seq![terminal_args()[n as int]]);
            Some((lossy_text(&join_path(&dirs[d], names[n].as_str())), args))
        },
        None => None,
    }
}

/// What a launch comes to.
#[derive(Debug)]
pub struct LaunchPlan {
    /// The font cache is to be removed first.
    pub clear_fontconfig: bool,
    /// The process to start, or why there is none.
    pub start: Result<Start, String>,
}

/// A process to start.
#[derive(Debug)]
pub struct Start {
    /// The executable and its arguments.
    pub argv: Vec<String>,
    /// The directory in which it starts.
    pub workdir: String,
}

/// The end of the command that keeps a terminal open.
pub open spec fn hold_suffix() -> Seq<char> {
    "; echo; read -r -p 'Press Enter to close...'"@
}

/// `argv` run by a terminal emulator.
pub open spec fn in_terminal_argv(
    program: Seq<char>,
    args: Seq<Seq<char>>,
    hold: bool,
    argv: Seq<Seq<char>>,
) -> Seq<Seq<char>> {
    seq![program] + args + if hold {
        seq!["/bin/bash"@, "-c"@, joined(all_quoted(argv), seq![' ']) + hold_suffix()]
    } else {
        argv
    }
}

fn append_all(to: &mut Vec<String>, from: &Vec<String>)
    ensures
        final(to).deep_view() == old(to).deep_view() + from.deep_view(),
{
    let ghost before = to.deep_view();
    let mut i: usize = 0;
    while i < from.len()
        invariant
            i <= from.len(),
            to.deep_view() == before + from.deep_view().take(i as int),
        decreases from.len() - i,
    {
        let ghost now = to.deep_view();
        to.push(from[i].clone());
        assert(to.deep_view() == now.push(from[i as int]@));
        assert(from.deep_view().take(i + 1) == from.deep_view().take(i as int).push(
            from.deep_view()[i as int],
        ));
        i += 1;
    }
    assert(from.deep_view().take(i as int) == from.deep_view());
}

/// The arguments that make a terminal emulator run `argv`.
pub fn wrap_in_terminal(
    program: &String,
    args: &Vec<String>,
    hold: bool,
    argv: &Vec<String>,
) -> (r: Vec<String>)
    ensures
        r.deep_view() == in_terminal_argv(program@, args.deep_view(), hold, argv.deep_view()),
{
    let mut r: Vec<String> = Vec::new();
    r.push(program.clone());
    assert(r.deep_view() == seq![program@]);
    append_all(&mut r, args);
    if hold {
        let mut script = shell_join(argv);
        script.append("; echo; read -r -p 'Press Enter to close...'");
        let mut tail: Vec<String> = Vec::new();
        tail.push("/bin/bash".to_owned());
        tail.push("-c".to_owned());
        tail.push(script);
        assert(tail.deep_view() == seq!["/bin/bash"@, "-c"@, script@]);
        append_all(&mut r, &tail);
    } else {
        append_all(&mut r, argv);
    }
    r
}

/// The directory in which a process starts: the configured one, else the
/// directory of the checked path, else the root.
pub open spec fn start_dir(configured: Option<Seq<char>>, beside: Option<Seq<char>>) -> Seq<char> {
    match configured {
        Some(w) => w,
        None => match beside {
            Some(p) => p,
            None => "/"@,
        },
    }
}

/// A text that may be missing.
pub open spec fn opt_view(s: Option<String>) -> Option<Seq<char>> {
    match s {
        Some(s) => Some(s@),
        None => None,
    }
}

/// The directory in which a process starts: the configured one, else the
/// directory of the checked path, else the root.
pub fn choose_workdir(configured: &Option<String>, beside: Option<String>) -> (r: String)
    ensures
        r@ == start_dir(opt_view(*configured), opt_view(beside)),
{
    match configured {
        Some(w) => w.clone(),
        None => match beside {
            Some(p) => p,
            None => "/".to_owned(),
        },
    }
}

impl AppEntry {
    /// The arguments before any terminal emulator: the opener and the web page,
    /// or the command. There are none where a web page has no opener.
    pub open spec fn plain_argv(&self, opener: Option<Seq<char>>) -> Option<Seq<Seq<char>>> {
        match self.url {
            Some(u) => match opener {
                Some(o) => Some(seq![o, u@]),
                None => None,
            },
            None => Some(self.command.deep_view()),
        }
    }

    /// The arguments with which the process starts.
    pub open spec fn start_argv(
        &self,
        plain: Seq<Seq<char>>,
        terminal: Option<(String, Vec<String>)>,
    ) -> Seq<Seq<char>> {
        match terminal {
            Some((program, args)) if self.in_terminal => in_terminal_argv(
                program@,
                args.deep_view(),
                self.hold_terminal,
                plain,
            ),
            _ => plain,
        }
    }

    /// The directory of the checked path.
    pub open spec fn beside_checked_path(&self) -> Option<Seq<char>> {
        match self.path_to_check() {
            Some(p) => parent(p),
            None => None,
        }
    }

    /// The directory of the checked path.
    pub fn checked_dir(&self) -> (r: Option<String>)
        ensures
            opt_view(r) == self.beside_checked_path(),
            self.path_to_check() matches Some(p) ==> (usual_dir(p) matches Some(d) ==> opt_view(r)
                == Some(d)),
    {
        match self.checked_path() {
            Some(p) => path_parent(p.as_str()),
            None => None,
        }
    }

    /// What launching the entry comes to, given the program that opens web
    /// pages and the terminal emulator that were found. A terminal emulator
    /// that was not found is done without.
    pub fn launch(
        &self,
        opener: Option<String>,
        terminal: Option<(String, Vec<String>)>,
    ) -> (r: LaunchPlan)
        ensures
            r.clear_fontconfig == (self.clear_fontconfig && (self.command.len() > 0
                || self.url is Some)),
            self.command.len() == 0 && self.url is None ==> (r.start matches Err(m) && m@
                == self.name@ + ": no command or url configured"@),
            self.url is Some && opener is None ==> (r.start matches Err(m) && m@ == self.name@
                + ": no browser opener (xdg-open/firefox) found"@),
            (self.url is Some && opener is Some) || (self.url is None && self.command.len() > 0)
                ==> (r.start matches Ok(s) && s.argv.deep_view() == self.start_argv(
                self.plain_argv(opt_view(opener))->Some_0,
                terminal,
            ) && s.argv.len() > 0 && s.workdir@ == start_dir(
                opt_view(self.workdir),
                self.beside_checked_path(),
            )),
            r.start is Ok ==> {
                let argv = r.start->Ok_0.argv.deep_view();
                let plain = self.plain_argv(opt_view(opener))->Some_0;
                let n = terminal->Some_0.1.len() as int;
                &&& !self.in_terminal || terminal is None ==> argv == plain
                &&& self.in_terminal && terminal is Some ==> {
                    &&& argv.len() > n
                    &&& argv[0] == terminal->Some_0.0@
                    &&& argv.subrange(1, n + 1) == terminal->Some_0.1.deep_view()
                    &&& !self.hold_terminal ==> argv.skip(n + 1) == plain
                    &&& self.hold_terminal ==> {
                        &&& argv.len() == n + 4
                        &&& argv[n + 1] == "/bin/bash"@
                        &&& argv[n + 2] == "-c"@
                        &&& exists|command: Seq<char>|
                            #![trigger shell_words(command, false, None)]
                            shell_words(command, false, None) == Some(plain) && argv[n + 3]
                                == command + "; echo; read -r -p 'Press Enter to close...'"@
                    }
                }
            },
            r.start matches Ok(s) ==> self.workdir is None ==> (self.path_to_check() matches Some(p)
                ==> (usual_dir(p) matches Some(d) ==> s.workdir@ == d)),
    {
        if self.command.len() == 0 && self.url.is_none() {
            let mut m = self.name.clone();
            m.append(": no command or url configured");
            return LaunchPlan { clear_fontconfig: false, start: Err(m) };
        }
        let clear_fontconfig = self.clear_fontconfig;
        let mut plain: Vec<String> = Vec::new();
        match &self.url {
            Some(u) => match &opener {
                Some(o) => {
                    plain.push(o.clone());
                    plain.push(u.clone());
                    assert(plain.deep_view() == seq![o@, u@]);
                },
                None => {
                    let mut m = self.name.clone();
                    m.append(": no browser opener (xdg-open/firefox) found");
                    return LaunchPlan { clear_fontconfig, start: Err(m) };
                },
            },
            None => {
                append_all(&mut plain, &self.command);
                assert(plain.deep_view() == self.command.deep_view());
            },
        }
        assert(plain.deep_view() == self.plain_argv(opt_view(opener))->Some_0);
        assert(plain.deep_view().len() > 0);
        let argv = match &terminal {
            Some((program, args)) if self.in_terminal => {
                let wrapped = wrap_in_terminal(program, args, self.hold_terminal, &plain);
                assert(wrapped.deep_view()[0] == program@);
                wrapped
            },
            _ => plain,
        };
        assert(argv.deep_view().len() > 0);
        proof {
            if let Some((program, args)) = terminal {
                law_terminal_flags_decide(
                    *self,
                    self.plain_argv(opt_view(opener))->Some_0,
                    program,
                    args,
                );
            }
        }
        let workdir = choose_workdir(&self.workdir, self.checked_dir());
        LaunchPlan { clear_fontconfig, start: Ok(Start { argv, workdir }) }
    }
}

/// The first line of a launch log.
pub open spec fn log_line(argv: Seq<Seq<char>>) -> Seq<char> {
    "$ "@ + joined(argv, seq![' ']) + "\n"@
}

/// The first line of a launch log: the command as it was started.
pub fn log_header(argv: &Vec<String>) -> (r: String)
    ensures
        r@ == log_line(argv.deep_view()),
{
    proof {
        reveal_strlit(" ");
    }
    assert(" "@ == seq![' ']);
    let mut r = "$ ".to_owned();
    r.append(join(argv, " ").as_str());
    r.append("\n");
    r
}

/// What is reported of a process that could not be started.
pub fn spawn_error(program: &str, error: &str) -> (r: String)
    ensures
        r@ == "Cannot launch "@ + program@ + ": "@ + error@,
{
    let mut r = "Cannot launch ".to_owned();
    r.append(program);
    r.append(": ");
    r.append(error);
    r
}

} // verus!
