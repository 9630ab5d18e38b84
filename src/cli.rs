//! Reading the command line: flags anywhere among the arguments, and the words of
//! the text.
use vstd::prelude::*;
use crate::case_map::push_char;

verus! {

/// What the command line asks for.
pub struct Settings {
    /// Start the graphical front end.
    pub gui: bool,
    /// The text to convert: the arguments that are no flag, joined by single spaces.
    pub input: String,
    /// Use simple alternation.
    pub simple: bool,
}

/// The outcome of reading the command line.
pub enum Command {
    /// Print the usage text.
    Help,
    /// Print the program's name and version.
    Version,
    /// An argument that starts with `-` and is no flag.
    UnknownOption(String),
    /// Convert with these settings.
    Run(Settings),
}

/// The arguments as character sequences.
pub open spec fn words(args: Seq<String>) -> Seq<Seq<char>> {
    args.map_values(|a: String| a@)
}

/// One of the four flags.
pub open spec fn is_flag(a: Seq<char>) -> bool {
    a == "--help"@ || a == "--version"@ || a == "--gui"@ || a == "--simple"@
}

/// An argument that starts with `-` and is no flag.
pub open spec fn is_unknown_option(a: Seq<char>) -> bool {
    a.len() > 0 && a[0] == '-' && !is_flag(a)
}

/// An argument that ends the reading at once: `--help`, `--version`, or an unknown
/// option.
pub open spec fn decisive(a: Seq<char>) -> bool {
    a == "--help"@ || a == "--version"@ || is_unknown_option(a)
}

/// The first decisive argument at `i` or later, or the number of arguments.
pub open spec fn first_decisive(ws: Seq<Seq<char>>, i: int) -> int
    decreases ws.len() - i,
{
    if i >= ws.len() {
        ws.len() as int
    } else if decisive(ws[i]) {
        i
    } else {
        first_decisive(ws, i + 1)
    }
}

/// The arguments from 1 up to `end` that are no flag, in order.
pub open spec fn text_words(ws: Seq<Seq<char>>, end: int) -> Seq<Seq<char>>
    decreases end,
{
    if end <= 1 {
        seq![]
    } else if is_flag(ws[end - 1]) {
        text_words(ws, end - 1)
    } else {
        text_words(ws, end - 1).push(ws[end - 1])
    }
}

/// The words joined by single spaces.
pub open spec fn joined(ws: Seq<Seq<char>>) -> Seq<char>
    decreases ws.len(),
{
    if ws.len() == 0 {
        seq![]
    } else if ws.len() == 1 {
        ws[0]
    } else {
        joined(ws.drop_last()) + seq![' '] + ws.last()
    }
}

/// `flag` occurs among the arguments from 1 up to `end`.
pub open spec fn given(ws: Seq<Seq<char>>, end: int, flag: Seq<char>) -> bool {
    exists|j: int| 1 <= j < end && ws[j] == flag
}

proof fn lemma_first_decisive(ws: Seq<Seq<char>>, i: int, k: int)
    requires
        0 <= i <= k <= ws.len(),
        forall|j: int| i <= j < k ==> !decisive(#[trigger] ws[j]),
        k == ws.len() || decisive(ws[k]),
    ensures
        first_decisive(ws, i) == k,
    decreases k - i,
{
    if i < k {
        lemma_first_decisive(ws, i + 1, k);
    }
}

proof fn lemma_given_step(ws: Seq<Seq<char>>, i: int, flag: Seq<char>)
    requires
        1 <= i < ws.len(),
    ensures
        given(ws, i + 1, flag) <==> (given(ws, i, flag) || ws[i] == flag),
{
    if given(ws, i, flag) {
        let j = choose|j: int| 1 <= j < i && ws[j] == flag;
        assert(1 <= j < i + 1 && ws[j] == flag);
    }
    if ws[i] == flag {
        assert(1 <= i < i + 1 && ws[i] == flag);
    }
    if given(ws, i + 1, flag) {
        let j = choose|j: int| 1 <= j < i + 1 && ws[j] == flag;
        if j < i {
            assert(1 <= j < i && ws[j] == flag);
        }
    }
}

/// Reads the arguments of the program, the first being its name. `--gui` and
/// `--simple` set their setting wherever they stand; `--help` and `--version` end
/// the reading at once, and so does an argument that starts with `-` and is no flag,
/// which is refused. The text is every other argument, joined by single spaces.
pub fn parse_args(args: &Vec<String>) -> (r: Command)
    ensures
        ({
            let ws = words(args@);
            let k = first_decisive(ws, 1);
            match r {
                Command::Help => k < ws.len() && ws[k] == "--help"@,
                Command::Version => k < ws.len() && ws[k] == "--version"@,
                Command::UnknownOption(a) => k < ws.len() && is_unknown_option(ws[k]) && a@
                    == ws[k],
                Command::Run(s) => k == ws.len() && s.gui == given(ws, k, "--gui"@) && s.simple
                    == given(ws, k, "--simple"@) && s.input@ == joined(text_words(ws, k)),
            }
        }),
{
    let ghost ws = words(args@);
    assert(ws.len() == args@.len());
    let help = String::from_str("--help");
    let version = String::from_str("--version");
    let gui_flag = String::from_str("--gui");
    let simple_flag = String::from_str("--simple");
    let mut gui = false;
    let mut simple = false;
    let mut input = String::new();
    let mut has_words = false;
    let mut i: usize = 1;
    while i < args.len()
        invariant
            ws == words(args@),
            ws.len() == args@.len(),
            1 <= i,
            i <= args.len() || i == 1,
            help@ == "--help"@,
            version@ == "--version"@,
            gui_flag@ == "--gui"@,
            simple_flag@ == "--simple"@,
            forall|j: int| 1 <= j < i ==> !decisive(#[trigger] ws[j]),
            gui == given(ws, i as int, "--gui"@),
            simple == given(ws, i as int, "--simple"@),
            input@ == joined(text_words(ws, i as int)),
            has_words == (text_words(ws, i as int).len() > 0),
        decreases args.len() - i,
    {
        let arg = &args[i];
        assert(arg@ == ws[i as int]);
        proof {
            reveal_strlit("--help");
            reveal_strlit("--version");
            reveal_strlit("--gui");
            reveal_strlit("--simple");
        }
        if *arg == help {
            proof {
                lemma_first_decisive(ws, 1, i as int);
            }
            return Command::Help;
        } else if *arg == version {
            proof {
                lemma_first_decisive(ws, 1, i as int);
            }
            return Command::Version;
        } else if *arg == gui_flag {
            gui = true;
        } else if *arg == simple_flag {
            simple = true;
        } else if arg.as_str().unicode_len() > 0 && arg.as_str().get_char(0) == '-' {
            proof {
                lemma_first_decisive(ws, 1, i as int);
            }
            return Command::UnknownOption(arg.clone());
        } else {
            let ghost before = text_words(ws, i as int);
            if has_words {
                push_char(&mut input, ' ');
            }
            input.append(arg.as_str());
            has_words = true;
            proof {
                let after = before.push(ws[i as int]);
                assert(text_words(ws, i + 1) == after);
                assert(after.drop_last() =~= before);
                if before.len() == 0 {
                    assert(input@ =~= ws[i as int]);
                } else {
                    assert(input@ =~= joined(before) + seq![' '] + ws[i as int]);
                }
            }
        }
        proof {
            assert(!decisive(ws[i as int]));
            lemma_given_step(ws, i as int, "--gui"@);
            lemma_given_step(ws, i as int, "--simple"@);
        }
        i = i + 1;
    }
    let n = args.len();
    proof {
        if n >= 1 {
            lemma_first_decisive(ws, 1, n as int);
        } else {
            assert(!given(ws, 1, "--gui"@) && !given(ws, 0, "--gui"@));
            assert(!given(ws, 1, "--simple"@) && !given(ws, 0, "--simple"@));
            assert(text_words(ws, 0) == text_words(ws, 1));
        }
    }
    Command::Run(Settings { gui, input, simple })
}

} // verus!
