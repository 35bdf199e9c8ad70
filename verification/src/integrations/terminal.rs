//! Terminal emulators: which one to use, and how to start it in a
//! directory.

use vstd::prelude::*;
use crate::text::{chars_eq, chars_of, contains_chars, has_infix, lowercase_chars, lowercase_of};

verus! {

/// Known terminals in order of preference for Wayland and modern Linux.
pub open spec fn known_terminals() -> Seq<Seq<char>> {
    seq![
        "foot"@, "alacritty"@, "kitty"@, "wezterm"@, "gnome-terminal"@, "konsole"@, "xterm"@,
        "rxvt"@,
    ]
}

/// The known terminals, in order of preference.
pub fn known_terminal_list() -> (r: Vec<&'static str>)
    ensures
        r@.map_values(|s: &str| s@) == known_terminals(),
{
    let r = vec!["foot", "alacritty", "kitty", "wezterm", "gnome-terminal", "konsole", "xterm", "rxvt"];
    assert(r@.map_values(|s: &str| s@) =~= known_terminals());
    r
}

/// `TERM` names a known terminal: its lower case contains one.
pub open spec fn names_known_terminal(term: Seq<char>) -> bool {
    exists|k: int| 0 <= k < known_terminals().len() && has_infix(lowercase_of(term), known_terminals()[k])
}

/// The first known terminal, from position `k` on, that was found on the
/// search path; `found[i]` says whether the `i`-th one was.
pub open spec fn first_found(found: Seq<bool>, k: int) -> Option<Seq<char>>
    decreases known_terminals().len() - k,
{
    if k < 0 || k >= known_terminals().len() {
        None
    } else if k < found.len() && found[k] {
        Some(known_terminals()[k])
    } else {
        first_found(found, k + 1)
    }
}

/// The terminal to use: `HYPRFILES_TERMINAL` when set and not empty; else
/// `TERM` when it names a known terminal; else the first known terminal
/// found on the search path; else `xterm`.
pub open spec fn detect_terminal_spec(
    override_var: Option<Seq<char>>,
    term_var: Option<Seq<char>>,
    found: Seq<bool>,
) -> Seq<char> {
    if override_var matches Some(t) && t.len() > 0 {
        override_var.unwrap()
    } else if term_var matches Some(t) && names_known_terminal(t) {
        term_var.unwrap()
    } else {
        match first_found(found, 0) {
            Some(t) => t,
            None => "xterm"@,
        }
    }
}

/// Choose the terminal, given the values of `HYPRFILES_TERMINAL` and
/// `TERM` and, for each known terminal in order, whether it is on the
/// search path.
pub fn detect_terminal(override_var: Option<&str>, term_var: Option<&str>, found: &Vec<bool>) -> (r: String)
    ensures
        r@ == detect_terminal_spec(
            match override_var {
                Some(t) => Some(t@),
                None => None,
            },
            match term_var {
                Some(t) => Some(t@),
                None => None,
            },
            found@,
        ),
{
    match override_var {
        Some(t) => {
            if !t.is_empty() {
                return t.to_string();
            }
        },
        None => {},
    }
    let known = known_terminal_list();
    let ghost names = known_terminals();
    match term_var {
        Some(t) => {
            let lower = lowercase_chars(&chars_of(t));
            let mut k: usize = 0;
            while k < known.len()
                invariant
                    known@.map_values(|s: &str| s@) == names,
                    names == known_terminals(),
                    k <= known.len(),
                    lower@ == lowercase_of(t@),
                    !(override_var matches Some(o) && o@.len() > 0),
                    term_var == Some(t),
                    forall|j: int| 0 <= j < k ==> !has_infix(lowercase_of(t@), #[trigger] names[j]),
                decreases known.len() - k,
            {
                assert(names[k as int] == known@[k as int]@);
                if contains_chars(&lower, &chars_of(known[k])) {
                    assert(has_infix(lowercase_of(t@), known_terminals()[k as int]));
                    assert(names_known_terminal(t@));
                    return t.to_string();
                }
                k += 1;
            }
            assert(!names_known_terminal(t@));
        },
        None => {},
    }
    let mut k: usize = 0;
    while k < known.len()
        invariant
            known@.map_values(|s: &str| s@) == names,
            names == known_terminals(),
            k <= known.len(),
            first_found(found@, 0) == first_found(found@, k as int),
            !(override_var matches Some(o) && o@.len() > 0),
            !(term_var matches Some(tv) && names_known_terminal(tv@)),
        decreases known.len() - k,
    {
        assert(names[k as int] == known@[k as int]@);
        if k < found.len() && found[k] {
            return known[k].to_string();
        }
        k += 1;
    }
    "xterm".to_string()
}

/// How to start a terminal: the program, its arguments, and the
/// directory to start it in when no argument names it.
#[derive(Clone, Debug)]
pub struct TerminalCommand {
    pub program: String,
    pub args: Vec<String>,
    pub current_dir: Option<String>,
}

/// The command that opens `term` in the directory `dir`: known terminals
/// are told the directory by their own option; any other program is
/// started in the directory.
pub open spec fn terminal_command_spec(term: Seq<char>, dir: Seq<char>) -> (Seq<char>, Seq<Seq<char>>, Option<Seq<char>>) {
    if term == "foot"@ {
        (term, seq!["--working-directory="@ + dir], None)
    } else if term == "alacritty"@ {
        (term, seq!["--working-directory"@, dir], None)
    } else if term == "kitty"@ {
        (term, seq!["--directory"@, dir], None)
    } else if term == "wezterm"@ {
        (term, seq!["start"@, "--cwd"@, dir], None)
    } else if term == "gnome-terminal"@ {
        (term, seq!["--working-directory="@ + dir], None)
    } else if term == "konsole"@ {
        (term, seq!["--workdir"@, dir], None)
    } else {
        (term, seq![], Some(dir))
    }
}

fn is_named(term: &Vec<char>, name: &str) -> (r: bool)
    ensures
        r == (term@ == name@),
{
    chars_eq(term, &chars_of(name))
}

fn two_args(a: &str, b: &str) -> (r: Vec<String>)
    ensures
        r@.map_values(|s: String| s@) == seq![a@, b@],
{
    let r = vec![a.to_string(), b.to_string()];
    assert(r@.map_values(|s: String| s@) =~= seq![a@, b@]);
    r
}

fn one_arg(a: String) -> (r: Vec<String>)
    ensures
        r@.map_values(|s: String| s@) == seq![a@],
{
    let r = vec![a];
    assert(r@.map_values(|s: String| s@) =~= seq![a@]);
    r
}

/// The command that opens `term` in the directory `dir`.
pub fn terminal_command(term: &str, dir: &str) -> (r: TerminalCommand)
    ensures
        r.program@ == terminal_command_spec(term@, dir@).0,
        r.args@.map_values(|s: String| s@) == terminal_command_spec(term@, dir@).1,
        (match r.current_dir {
            Some(d) => Some(d@),
            None => None,
        }) == terminal_command_spec(term@, dir@).2,
{
    proof {
        reveal_strlit("foot");
        reveal_strlit("alacritty");
        reveal_strlit("kitty");
        reveal_strlit("wezterm");
        reveal_strlit("gnome-terminal");
        reveal_strlit("konsole");
    }
    let ghost spec = terminal_command_spec(term@, dir@);
    let t = chars_of(term);
    let program = term.to_string();
    let (args, current_dir) = if is_named(&t, "foot") {
        let mut a = "--working-directory=".to_string();
        a.append(dir);
        (one_arg(a), None)
    } else if is_named(&t, "gnome-terminal") {
        assert("gnome-terminal"@.len() == 14);
        assert(term@ != "alacritty"@ && term@ != "kitty"@ && term@ != "wezterm"@);
        let mut a = "--working-directory=".to_string();
        a.append(dir);
        (one_arg(a), None)
    } else if is_named(&t, "alacritty") {
        (two_args("--working-directory", dir), None)
    } else if is_named(&t, "kitty") {
        (two_args("--directory", dir), None)
    } else if is_named(&t, "wezterm") {
        let args = vec!["start".to_string(), "--cwd".to_string(), dir.to_string()];
        assert(args@.map_values(|s: String| s@) =~= seq!["start"@, "--cwd"@, dir@]);
        (args, None)
    } else if is_named(&t, "konsole") {
        (two_args("--workdir", dir), None)
    } else {
        let args: Vec<String> = Vec::new();
        assert(args@.map_values(|s: String| s@) =~= Seq::<Seq<char>>::empty());
        (args, Some(dir.to_string()))
    };
    assert(args@.map_values(|s: String| s@) == spec.1);
    TerminalCommand { program, args, current_dir }
}

/// Why opening a terminal failed.
#[derive(Clone, Debug)]
pub enum TerminalError {
    /// The program could not be started.
    Spawn { terminal: String, reason: String },
    /// The program ran and exited unsuccessfully, with this exit code when
    /// it had one.
    Exited { terminal: String, code: Option<i32> },
}

/// The result of running a terminal: success, or its exit reported as an
/// error.
pub fn terminal_exit(term: &str, success: bool, code: Option<i32>) -> (r: Result<(), TerminalError>)
    ensures
        success ==> r is Ok,
        !success ==> (r matches Err(TerminalError::Exited { terminal, code: c }) && terminal@
            == term@ && c == code),
{
    if success {
        Ok(())
    } else {
        Err(TerminalError::Exited { terminal: term.to_string(), code })
    }
}

} // verus!
